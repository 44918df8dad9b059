use vstd::prelude::*;
use vstd::arithmetic::mul::{lemma_mul_is_associative, lemma_mul_nonnegative, lemma_mul_strictly_positive};
use crate::error::TensorError;
use crate::scalar::{strided, Scalar};
use crate::shape::{
    lemma_index2, lemma_index3, lemma_size_split, lemma_size_take, lemma_unindex2, lemma_unindex3,
    prefix_size, shape_size,
};
use crate::tensor::{append_run, copy_strided, copy_vec, lemma_rows_append, row_of, Tensor, TensorView};

verus! {

/// `m` is an outcome of folding the maximum over the first `n` elements of
/// `xs`, in order, from the element below all others.
pub open spec fn max_acc<T: Scalar>(xs: Seq<T>, n: nat, m: T) -> bool
    decreases n,
{
    if n == 0 {
        call_ensures(T::neg_infinity, (), m)
    } else {
        exists|prev: T|
            max_acc(xs, (n - 1) as nat, prev) && #[trigger] call_ensures(T::max, (prev, xs[n - 1]), m)
    }
}

/// `s` is an outcome of adding up the first `n` elements of `xs`, in order,
/// from zero.
pub open spec fn sum_acc<T: Scalar>(xs: Seq<T>, n: nat, s: T) -> bool
    decreases n,
{
    if n == 0 {
        call_ensures(T::from_usize, (0usize,), s)
    } else {
        exists|prev: T|
            sum_acc(xs, (n - 1) as nat, prev) && #[trigger] call_ensures(T::add, (prev, xs[n - 1]), s)
    }
}

/// `e` is an outcome of `exp(x - m)`.
pub open spec fn shifted_exp<T: Scalar>(x: T, m: T, e: T) -> bool {
    exists|d: T| call_ensures(T::sub, (x, m), d) && call_ensures(T::exp, (d,), e)
}

/// `es` holds, for each element of `xs`, its exponential after `m`, a maximum
/// of `xs`, was taken off; `s` is a sum of `es`.
pub open spec fn softmax_parts<T: Scalar>(xs: Seq<T>, m: T, es: Seq<T>, s: T) -> bool {
    &&& max_acc(xs, xs.len(), m)
    &&& es.len() == xs.len()
    &&& forall|a: int| 0 <= a < xs.len() ==> shifted_exp(xs[a], m, #[trigger] es[a])
    &&& sum_acc(es, es.len(), s)
}

/// `ys` is a softmax of `xs`: the exponentials of the elements, each after
/// the maximum was taken off, divided by their sum.
pub open spec fn softmax_lane_rel<T: Scalar>(xs: Seq<T>, ys: Seq<T>) -> bool {
    &&& ys.len() == xs.len()
    &&& exists|m: T, es: Seq<T>, s: T|
        #[trigger] softmax_parts(xs, m, es, s) && forall|a: int|
            0 <= a < xs.len() ==> call_ensures(T::div, (es[a], s), #[trigger] ys[a])
}

/// The softmax of one lane.
pub fn softmax_lane<T: Scalar>(xs: &Vec<T>) -> (ys: Vec<T>)
    ensures
        softmax_lane_rel(xs@, ys@),
{
    let n = xs.len();
    let mut m = T::neg_infinity();
    let mut i: usize = 0;
    while i < n
        invariant
            i <= n,
            n == xs@.len(),
            max_acc(xs@, i as nat, m),
        decreases n - i,
    {
        let ghost prev = m;
        m = m.max(xs[i]);
        i += 1;
        proof {
            assert(max_acc(xs@, (i - 1) as nat, prev));
            assert(call_ensures(T::max, (prev, xs@[i - 1]), m));
        }
    }
    let mut es: Vec<T> = Vec::new();
    let mut a: usize = 0;
    while a < n
        invariant
            a <= n,
            n == xs@.len(),
            es@.len() == a,
            forall|k: int| 0 <= k < a ==> shifted_exp(xs@[k], m, #[trigger] es@[k]),
        decreases n - a,
    {
        let d = xs[a].sub(m);
        let e = d.exp();
        es.push(e);
        proof {
            assert(call_ensures(T::sub, (xs@[a as int], m), d) && call_ensures(T::exp, (d,), e));
            assert(shifted_exp(xs@[a as int], m, e));
        }
        a += 1;
    }
    let mut s = T::from_usize(0);
    let mut j: usize = 0;
    while j < n
        invariant
            j <= n,
            n == es@.len(),
            sum_acc(es@, j as nat, s),
        decreases n - j,
    {
        let ghost prev = s;
        s = s.add(es[j]);
        j += 1;
        proof {
            assert(sum_acc(es@, (j - 1) as nat, prev));
            assert(call_ensures(T::add, (prev, es@[j - 1]), s));
        }
    }
    let mut ys: Vec<T> = Vec::new();
    let mut b: usize = 0;
    while b < n
        invariant
            b <= n,
            n == es@.len(),
            ys@.len() == b,
            forall|k: int| 0 <= k < b ==> call_ensures(T::div, (es@[k], s), #[trigger] ys@[k]),
        decreases n - b,
    {
        ys.push(es[b].div(s));
        b += 1;
    }
    proof {
        assert(softmax_parts(xs@, m, es@, s));
    }
    ys
}

/// Among `outer` blocks of `n` rows of `inner` elements: the lane that runs
/// through the rows of block `o` at column `i`.
pub open spec fn lane<T>(data: Seq<T>, n: int, inner: int, o: int, i: int) -> Seq<T> {
    strided(data, (o * n) * inner + i, inner, n as nat)
}

/// A softmax along `axis` can be taken of a tensor of the dimensions `shape`:
/// it has that axis, or it is a vector, which has but one.
pub open spec fn softmax_ok(shape: Seq<usize>, axis: usize) -> bool {
    shape.len() == 1 || (shape.len() >= 2 && axis < shape.len())
}

/// The axis that the lanes run along: the only one of a vector, whatever
/// was asked for.
pub open spec fn softmax_axis(shape: Seq<usize>, axis: usize) -> int {
    if shape.len() == 1 {
        0
    } else {
        axis as int
    }
}

/// `r` is a softmax of `x` along `axis`: it has the dimensions of `x`, and
/// each of its lanes along that axis is a softmax of the same lane of `x`.
pub open spec fn softmax_rel<T: Scalar>(x: TensorView<T>, axis: usize, r: TensorView<T>) -> bool {
    let ax = softmax_axis(x.shape, axis);
    let outer = shape_size(x.shape.take(ax)) as int;
    let n = x.shape[ax] as int;
    let inner = shape_size(x.shape.skip(ax + 1)) as int;
    &&& r.shape == x.shape
    &&& r.data.len() == x.data.len()
    &&& forall|o: int, i: int|
        0 <= o < outer && 0 <= i < inner ==> softmax_lane_rel(
            #[trigger] lane(x.data, n, inner, o, i),
            lane(r.data, n, inner, o, i),
        )
}

/// Where the element at `p` of `n` rows of `inner` elements per block lies
/// once each block is laid out lane by lane.
pub open spec fn lane_major(p: int, n: int, inner: int) -> int {
    (((p / inner) / n) * inner + p % inner) * n + (p / inner) % n
}

impl<T: Scalar> Tensor<T> {
    /// The softmax along `axis`; of a vector, along its only axis.
    pub fn softmax(&self, axis: usize) -> (r: Result<Tensor<T>, TensorError>)
        ensures
            match r {
                Ok(t) => softmax_ok(self@.shape, axis) && softmax_rel(self@, axis, t@) && t@.wf(),
                Err(e) => e == TensorError::ShapeMismatch && !softmax_ok(self@.shape, axis),
            },
    {
        let shape = self.shape();
        let rank = shape.len();
        if rank == 0 || (rank >= 2 && axis >= rank) {
            return Err(TensorError::ShapeMismatch);
        }
        let ax = if rank == 1 {
            0
        } else {
            axis
        };
        let data = self.data();
        let total = data.len();
        let n = shape[ax];
        let ghost outer_s = shape_size(shape@.take(ax as int)) as int;
        let ghost inner_s = shape_size(shape@.skip(ax + 1)) as int;
        proof {
            lemma_size_split(shape@, ax + 1);
            lemma_size_take(shape@, ax as int);
            lemma_mul_is_associative(outer_s, n as int, inner_s);
            assert(total == outer_s * n * inner_s);
        }
        if total == 0 {
            let nothing: Vec<T> = Vec::new();
            let ys = softmax_lane(&nothing);
            proof {
                assert forall|o: int, i: int| 0 <= o < outer_s && 0 <= i < inner_s implies softmax_lane_rel(
                    #[trigger] lane(data@, n as int, inner_s, o, i),
                    lane(ys@, n as int, inner_s, o, i),
                ) by {
                    if n > 0 {
                        lemma_mul_strictly_positive(outer_s, n as int);
                        lemma_mul_strictly_positive(outer_s * n, inner_s);
                    }
                    assert(lane(data@, n as int, inner_s, o, i) =~= nothing@);
                    assert(lane(ys@, n as int, inner_s, o, i) =~= ys@);
                }
            }
            return Ok(Tensor::from_parts(copy_vec(shape), ys));
        }
        let outer = prefix_size(shape, ax);
        let on = prefix_size(shape, ax + 1);
        let inner = total / on;
        proof {
            assert(on == outer * n);
            assert(inner == inner_s) by (nonlinear_arith)
                requires
                    total == on * inner_s,
                    inner == (total as int) / (on as int),
                    on >= 1,
            ;
            assert(n > 0 && inner > 0) by (nonlinear_arith)
                requires
                    total == outer * n * inner,
                    total > 0,
                    outer >= 1,
                    n >= 0,
                    inner >= 0,
            ;
        }
        let lanes = total / n;
        proof {
            assert(lanes == outer * inner) by (nonlinear_arith)
                requires
                    total == outer * n * inner,
                    lanes == (total as int) / (n as int),
                    n > 0,
            ;
        }
        let mut by_lane: Vec<T> = Vec::new();
        let mut q: usize = 0;
        while q < lanes
            invariant
                q <= lanes,
                lanes == outer * inner,
                total == outer * n * inner,
                total == data@.len(),
                n > 0,
                inner > 0,
                by_lane@.len() == q * n,
                forall|u: int|
                    0 <= u < q ==> softmax_lane_rel(
                        lane(data@, n as int, inner as int, u / (inner as int), u % (inner as int)),
                        #[trigger] row_of(by_lane@, n as int, u),
                    ),
            decreases lanes - q,
        {
            proof {
                lemma_unindex2(q as int, outer as int, inner as int);
            }
            let o = q / inner;
            let i = q % inner;
            proof {
                lemma_index3(o as int, n - 1, i as int, outer as int, n as int, inner as int);
                lemma_index3(o as int, 0, i as int, outer as int, n as int, inner as int);
                assert((o * n + (n - 1)) * inner + i == (o * n) * inner + i + (n - 1) * inner)
                    by (nonlinear_arith);
                lemma_mul_nonnegative(o as int, n as int);
                lemma_mul_nonnegative(o * n, inner as int);
            }
            let xs = copy_strided(data, o * n * inner + i, inner, n);
            let ys = softmax_lane(&xs);
            let ghost before = by_lane@;
            append_run(&mut by_lane, &ys);
            proof {
                lemma_rows_append(before, ys@, n as int, q as int);
                assert(xs@ == lane(data@, n as int, inner as int, o as int, i as int));
            }
            q += 1;
        }
        let mut out: Vec<T> = Vec::new();
        let mut p: usize = 0;
        while p < total
            invariant
                p <= total,
                lanes == outer * inner,
                total == outer * n * inner,
                by_lane@.len() == lanes * n,
                n > 0,
                inner > 0,
                out@.len() == p,
                forall|k: int|
                    0 <= k < p ==> #[trigger] out@[k] == by_lane@[lane_major(k, n as int, inner as int)],
            decreases total - p,
        {
            proof {
                lemma_unindex3(p as int, outer as int, n as int, inner as int);
            }
            let pc = p / inner;
            let i = p % inner;
            let a = pc % n;
            let o = pc / n;
            proof {
                lemma_index3(o as int, i as int, a as int, outer as int, inner as int, n as int);
                lemma_mul_nonnegative(o as int, inner as int);
                assert(outer * inner * n == outer * n * inner) by (nonlinear_arith);
            }
            out.push(by_lane[(o * inner + i) * n + a]);
            p += 1;
        }
        proof {
            assert forall|o: int, i: int| 0 <= o < outer && 0 <= i < inner implies softmax_lane_rel(
                #[trigger] lane(data@, n as int, inner as int, o, i),
                lane(out@, n as int, inner as int, o, i),
            ) by {
                let u = o * inner + i;
                lemma_index2(o, i, outer as int, inner as int);
                assert(softmax_lane_rel(
                    lane(data@, n as int, inner as int, u / (inner as int), u % (inner as int)),
                    row_of(by_lane@, n as int, u),
                ));
                assert forall|a: int| 0 <= a < n implies lane(out@, n as int, inner as int, o, i)[a]
                    == row_of(by_lane@, n as int, u)[a] by {
                    lemma_index3(o, a, i, outer as int, n as int, inner as int);
                    lemma_index2(u, a, outer * inner, n as int);
                    let k = (o * n + a) * inner + i;
                    assert(k == (o * n) * inner + i + a * inner) by (nonlinear_arith)
                        requires
                            k == (o * n + a) * inner + i,
                    ;
                    assert(out@[k] == by_lane@[lane_major(k, n as int, inner as int)]);
                    assert(lane_major(k, n as int, inner as int) == u * n + a);
                    assert(0 <= u * n && u * n + n <= lanes * n) by (nonlinear_arith)
                        requires
                            0 <= u < lanes,
                            n > 0,
                    ;
                    assert(lane(out@, n as int, inner as int, o, i)[a] == out@[k]);
                    assert(row_of(by_lane@, n as int, u)[a] == by_lane@[u * n + a]);
                }
                assert(lane(out@, n as int, inner as int, o, i) =~= row_of(by_lane@, n as int, u));
            }
        }
        Ok(Tensor::from_parts(copy_vec(shape), out))
    }
}

} // verus!
