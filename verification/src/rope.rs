use vstd::prelude::*;
use vstd::arithmetic::mul::lemma_mul_inequality;
use crate::error::TensorError;
use crate::rmsnorm::rows_of;
use crate::scalar::Scalar;
use crate::tensor::{
    append_run, copy_strided, copy_vec, lemma_rows_append, row_count, row_of, Tensor, TensorView,
};

verus! {

/// `c` and `s` are outcomes of the cosine and the sine of the angle by which
/// pair `i` turns at position `pos`: the position times the inverse
/// frequency `1 / theta^(2i / rotary_dim)`.
pub open spec fn rope_angle_rel<T: Scalar>(
    i: usize,
    rotary_dim: usize,
    pos: usize,
    theta: T,
    c: T,
    s: T,
) -> bool {
    exists|num: T, den: T, e: T, pw: T, one: T, inv: T, pf: T, ang: T|
        call_ensures(T::from_usize, ((2 * i) as usize,), num) && call_ensures(
            T::from_usize,
            (rotary_dim,),
            den,
        ) && #[trigger] call_ensures(T::div, (num, den), e) && call_ensures(T::powf, (theta, e), pw)
            && call_ensures(T::from_usize, (1usize,), one) && #[trigger] call_ensures(
            T::div,
            (one, pw),
            inv,
        ) && call_ensures(T::from_usize, (pos,), pf) && #[trigger] call_ensures(
            T::mul,
            (pf, inv),
            ang,
        ) && call_ensures(T::cos, (ang,), c) && call_ensures(T::sin, (ang,), s)
}

/// `cos` and `sin` hold the cosines and sines for the `rotary_dim / 2` pairs
/// at position `pos`.
pub open spec fn rope_table_rel<T: Scalar>(
    rotary_dim: usize,
    pos: usize,
    theta: T,
    cos: Seq<T>,
    sin: Seq<T>,
) -> bool {
    &&& cos.len() == rotary_dim / 2
    &&& sin.len() == rotary_dim / 2
    &&& forall|i: int|
        0 <= i < rotary_dim / 2 ==> rope_angle_rel(
            i as usize,
            rotary_dim,
            pos,
            theta,
            #[trigger] cos[i],
            sin[i],
        )
}

/// `y` is an outcome of `x1 * c - x2 * s`.
pub open spec fn rot_first<T: Scalar>(x1: T, x2: T, c: T, s: T, y: T) -> bool {
    exists|a: T, b: T|
        call_ensures(T::mul, (x1, c), a) && call_ensures(T::mul, (x2, s), b) && #[trigger] call_ensures(
            T::sub,
            (a, b),
            y,
        )
}

/// `y` is an outcome of `x2 * c + x1 * s`.
pub open spec fn rot_second<T: Scalar>(x1: T, x2: T, c: T, s: T, y: T) -> bool {
    exists|a: T, b: T|
        call_ensures(T::mul, (x2, c), a) && call_ensures(T::mul, (x1, s), b) && #[trigger] call_ensures(
            T::add,
            (a, b),
            y,
        )
}

/// `ys` is the row `xs` with its leading pairs turned: pair `i`, the
/// elements at `2i` and `2i + 1`, by the angle whose cosine and sine stand at
/// `i`; what follows the pairs is unchanged.
pub open spec fn rope_row_rel<T: Scalar>(xs: Seq<T>, cos: Seq<T>, sin: Seq<T>, ys: Seq<T>) -> bool {
    &&& ys.len() == xs.len()
    &&& forall|i: int|
        0 <= i < cos.len() ==> rot_first(xs[2 * i], xs[2 * i + 1], #[trigger] cos[i], sin[i], ys[2 * i])
            && rot_second(xs[2 * i], xs[2 * i + 1], cos[i], sin[i], ys[2 * i + 1])
    &&& forall|j: int| 2 * cos.len() <= j < xs.len() ==> #[trigger] ys[j] == xs[j]
}

/// The cosines and sines for the pairs at position `pos`.
pub fn rope_table<T: Scalar>(rotary_dim: usize, pos: usize, theta: T) -> (r: (Vec<T>, Vec<T>))
    ensures
        rope_table_rel(rotary_dim, pos, theta, r.0@, r.1@),
{
    let half = rotary_dim / 2;
    let mut cos: Vec<T> = Vec::new();
    let mut sin: Vec<T> = Vec::new();
    let mut i: usize = 0;
    while i < half
        invariant
            i <= half,
            half == rotary_dim / 2,
            cos@.len() == i,
            sin@.len() == i,
            forall|k: int|
                0 <= k < i ==> rope_angle_rel(k as usize, rotary_dim, pos, theta, #[trigger] cos@[k], sin@[k]),
        decreases half - i,
    {
        let num = T::from_usize(2 * i);
        let den = T::from_usize(rotary_dim);
        let e = num.div(den);
        let pw = theta.powf(e);
        let one = T::from_usize(1);
        let inv = one.div(pw);
        let pf = T::from_usize(pos);
        let ang = pf.mul(inv);
        let c = ang.cos();
        let s = ang.sin();
        proof {
            assert(call_ensures(T::from_usize, ((2 * i) as usize,), num) && call_ensures(
                T::from_usize,
                (rotary_dim,),
                den,
            ) && call_ensures(T::div, (num, den), e) && call_ensures(T::powf, (theta, e), pw)
                && call_ensures(T::from_usize, (1usize,), one) && call_ensures(T::div, (one, pw), inv)
                && call_ensures(T::from_usize, (pos,), pf) && call_ensures(T::mul, (pf, inv), ang)
                && call_ensures(T::cos, (ang,), c) && call_ensures(T::sin, (ang,), s));
            assert(rope_angle_rel(i, rotary_dim, pos, theta, c, s));
        }
        cos.push(c);
        sin.push(s);
        i += 1;
    }
    (cos, sin)
}

/// The row `xs` with its leading pairs turned.
pub(crate) fn rope_row<T: Scalar>(xs: &Vec<T>, cos: &Vec<T>, sin: &Vec<T>) -> (ys: Vec<T>)
    requires
        cos@.len() == sin@.len(),
        2 * cos@.len() <= xs@.len(),
    ensures
        rope_row_rel(xs@, cos@, sin@, ys@),
{
    let d = xs.len();
    let half = cos.len();
    let mut ys: Vec<T> = Vec::new();
    let mut i: usize = 0;
    while i < half
        invariant
            i <= half,
            half == cos@.len(),
            half == sin@.len(),
            d == xs@.len(),
            2 * half <= d,
            ys@.len() == 2 * i,
            forall|k: int|
                0 <= k < i ==> rot_first(
                    xs@[2 * k],
                    xs@[2 * k + 1],
                    #[trigger] cos@[k],
                    sin@[k],
                    ys@[2 * k],
                ) && rot_second(xs@[2 * k], xs@[2 * k + 1], cos@[k], sin@[k], ys@[2 * k + 1]),
        decreases half - i,
    {
        let c = cos[i];
        let s = sin[i];
        let x1 = xs[2 * i];
        let x2 = xs[2 * i + 1];
        let a1 = x1.mul(c);
        let b1 = x2.mul(s);
        let y1 = a1.sub(b1);
        let a2 = x2.mul(c);
        let b2 = x1.mul(s);
        let y2 = a2.add(b2);
        proof {
            assert(call_ensures(T::mul, (x1, c), a1) && call_ensures(T::mul, (x2, s), b1) && call_ensures(
                T::sub,
                (a1, b1),
                y1,
            ));
            assert(rot_first(x1, x2, c, s, y1));
            assert(call_ensures(T::mul, (x2, c), a2) && call_ensures(T::mul, (x1, s), b2) && call_ensures(
                T::add,
                (a2, b2),
                y2,
            ));
            assert(rot_second(x1, x2, c, s, y2));
        }
        ys.push(y1);
        ys.push(y2);
        i += 1;
    }
    let mut j: usize = 2 * half;
    while j < d
        invariant
            2 * half <= j <= d,
            half == cos@.len(),
            d == xs@.len(),
            ys@.len() == j,
            forall|k: int|
                0 <= k < half ==> rot_first(
                    xs@[2 * k],
                    xs@[2 * k + 1],
                    #[trigger] cos@[k],
                    sin@[k],
                    ys@[2 * k],
                ) && rot_second(xs@[2 * k], xs@[2 * k + 1], cos@[k], sin@[k], ys@[2 * k + 1]),
            forall|k: int| 2 * half <= k < j ==> #[trigger] ys@[k] == xs@[k],
        decreases d - j,
    {
        ys.push(xs[j]);
        j += 1;
    }
    ys
}

/// The rotary embedding can be applied to a tensor of the dimensions `x`:
/// it has a last axis, at least `rotary_dim` long.
pub open spec fn rope_shape_ok(x: Seq<usize>, rotary_dim: usize) -> bool {
    x.len() >= 1 && rotary_dim <= x.last()
}

/// `r` is `x` with every row turned by the angles of the one position `pos`.
pub open spec fn rope_rel<T: Scalar>(
    x: TensorView<T>,
    pos: usize,
    rotary_dim: usize,
    theta: T,
    r: TensorView<T>,
) -> bool {
    let d = x.shape.last() as int;
    &&& r.shape == x.shape
    &&& r.data.len() == x.data.len()
    &&& exists|cos: Seq<T>, sin: Seq<T>|
        #[trigger] rope_table_rel(rotary_dim, pos, theta, cos, sin) && forall|t: int|
            0 <= t < row_count(x.data.len(), d) ==> rope_row_rel(
                row_of(x.data, d, t),
                cos,
                sin,
                #[trigger] row_of(r.data, d, t),
            )
}

/// `ys` is the row `xs` turned by the angles of position `pos`.
pub open spec fn rope_at_rel<T: Scalar>(
    xs: Seq<T>,
    pos: usize,
    rotary_dim: usize,
    theta: T,
    ys: Seq<T>,
) -> bool {
    exists|cos: Seq<T>, sin: Seq<T>|
        #[trigger] rope_table_rel(rotary_dim, pos, theta, cos, sin) && rope_row_rel(xs, cos, sin, ys)
}

/// `r` is `x` with row `t` turned by the angles of position `base + t`.
pub open spec fn rope_tokens_rel<T: Scalar>(
    x: TensorView<T>,
    base: usize,
    rotary_dim: usize,
    theta: T,
    r: TensorView<T>,
) -> bool {
    let d = x.shape.last() as int;
    &&& r.shape == x.shape
    &&& r.data.len() == x.data.len()
    &&& forall|t: int|
        0 <= t < row_count(x.data.len(), d) ==> rope_at_rel(
            row_of(x.data, d, t),
            (base + t) as usize,
            rotary_dim,
            theta,
            #[trigger] row_of(r.data, d, t),
        )
}

/// The error that `rope` answers the dimensions `x` and the position `pos`
/// with, if any: the shape is looked at first, then whether the position
/// exceeds `max_seq_len`.
pub open spec fn rope_error(x: Seq<usize>, pos: usize, rotary_dim: usize, max_seq_len: usize) -> Option<
    TensorError,
> {
    if !rope_shape_ok(x, rotary_dim) {
        Some(TensorError::ShapeMismatch)
    } else if pos > max_seq_len {
        Some(TensorError::IndexOutOfRange)
    } else {
        None
    }
}

/// The error that `rope_tokens` answers a matrix of the dimensions `x` and
/// the first position `base` with, if any: the shape is looked at first,
/// then whether the position of the last row, the largest one, exceeds
/// `max_seq_len`.
pub open spec fn rope_tokens_error(
    x: Seq<usize>,
    base: usize,
    rotary_dim: usize,
    max_seq_len: usize,
) -> Option<TensorError> {
    if !(x.len() == 2 && rotary_dim <= x[1]) {
        Some(TensorError::ShapeMismatch)
    } else if x[0] > 0 && base + x[0] - 1 > max_seq_len {
        Some(TensorError::IndexOutOfRange)
    } else {
        None
    }
}

impl<T: Scalar> Tensor<T> {
    /// The rotary position embedding at the one position `pos`: in every
    /// row, the first `rotary_dim / 2` pairs are turned by the angles of
    /// that position, and the rest of the row is kept.
    pub fn rope(&self, pos: usize, rotary_dim: usize, max_seq_len: usize, theta: T) -> (r: Result<
        Tensor<T>,
        TensorError,
    >)
        ensures
            match r {
                Ok(t) => rope_error(self@.shape, pos, rotary_dim, max_seq_len) is None && rope_rel(
                    self@,
                    pos,
                    rotary_dim,
                    theta,
                    t@,
                ) && t@.wf(),
                Err(e) => rope_error(self@.shape, pos, rotary_dim, max_seq_len) == Some(e),
            },
    {
        let shape = self.shape();
        if shape.len() == 0 {
            return Err(TensorError::ShapeMismatch);
        }
        let d = shape[shape.len() - 1];
        if rotary_dim > d {
            return Err(TensorError::ShapeMismatch);
        }
        if pos > max_seq_len {
            return Err(TensorError::IndexOutOfRange);
        }
        let data = self.data();
        let total = data.len();
        let rows = rows_of(shape, total);
        let (cos, sin) = rope_table(rotary_dim, pos, theta);
        let mut out: Vec<T> = Vec::new();
        let mut t: usize = 0;
        while t < rows
            invariant
                t <= rows,
                total == rows * d,
                total == data@.len(),
                cos@.len() == rotary_dim / 2,
                sin@.len() == rotary_dim / 2,
                rotary_dim <= d,
                out@.len() == t * d,
                forall|u: int|
                    0 <= u < t ==> rope_row_rel(
                        row_of(data@, d as int, u),
                        cos@,
                        sin@,
                        #[trigger] row_of(out@, d as int, u),
                    ),
            decreases rows - t,
        {
            proof {
                lemma_mul_inequality(t + 1, rows as int, d as int);
                assert((t + 1) * d == t * d + d) by (nonlinear_arith);
            }
            let xs = copy_strided(data, t * d, 1, d);
            let ys = rope_row(&xs, &cos, &sin);
            let ghost before = out@;
            append_run(&mut out, &ys);
            proof {
                lemma_rows_append(before, ys@, d as int, t as int);
                assert(xs@ =~= row_of(data@, d as int, t as int));
            }
            t += 1;
        }
        Ok(Tensor::from_parts(copy_vec(shape), out))
    }

    /// The rotary position embedding of a sequence of tokens, one row each:
    /// row `t` is turned by the angles of position `base + t`.
    pub fn rope_tokens(&self, base: usize, rotary_dim: usize, max_seq_len: usize, theta: T) -> (r:
        Result<Tensor<T>, TensorError>)
        ensures
            match r {
                Ok(t) => rope_tokens_error(self@.shape, base, rotary_dim, max_seq_len) is None
                    && rope_tokens_rel(self@, base, rotary_dim, theta, t@) && t@.wf(),
                Err(e) => rope_tokens_error(self@.shape, base, rotary_dim, max_seq_len) == Some(e),
            },
    {
        let shape = self.shape();
        if shape.len() != 2 {
            return Err(TensorError::ShapeMismatch);
        }
        let d = shape[1];
        if rotary_dim > d {
            return Err(TensorError::ShapeMismatch);
        }
        let data = self.data();
        let total = data.len();
        let rows = rows_of(shape, total);
        proof {
            crate::shape::lemma_size_2(shape@);
            if d > 0 {
                assert(rows == shape@[0]) by (nonlinear_arith)
                    requires
                        total == rows * d,
                        total == shape@[0] * d,
                        d > 0,
                ;
            }
        }
        let tokens = shape[0];
        if tokens > 0 && (base > max_seq_len || tokens - 1 > max_seq_len - base) {
            return Err(TensorError::IndexOutOfRange);
        }
        let mut out: Vec<T> = Vec::new();
        let mut t: usize = 0;
        while t < rows
            invariant
                t <= rows,
                total == rows * d,
                total == data@.len(),
                rotary_dim <= d,
                rows > 0 ==> base + rows - 1 <= max_seq_len,
                out@.len() == t * d,
                forall|u: int|
                    0 <= u < t ==> rope_at_rel(
                        row_of(data@, d as int, u),
                        (base + u) as usize,
                        rotary_dim,
                        theta,
                        #[trigger] row_of(out@, d as int, u),
                    ),
            decreases rows - t,
        {
            proof {
                lemma_mul_inequality(t + 1, rows as int, d as int);
                assert((t + 1) * d == t * d + d) by (nonlinear_arith);
            }
            let xs = copy_strided(data, t * d, 1, d);
            let (cos, sin) = rope_table(rotary_dim, base + t, theta);
            let ys = rope_row(&xs, &cos, &sin);
            let ghost before = out@;
            append_run(&mut out, &ys);
            proof {
                lemma_rows_append(before, ys@, d as int, t as int);
                assert(xs@ =~= row_of(data@, d as int, t as int));
                assert(rope_table_rel(rotary_dim, (base + t) as usize, theta, cos@, sin@) && rope_row_rel(
                    row_of(data@, d as int, t as int),
                    cos@,
                    sin@,
                    ys@,
                ));
            }
            t += 1;
        }
        Ok(Tensor::from_parts(copy_vec(shape), out))
    }
}

} // verus!
