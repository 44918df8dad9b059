use vstd::prelude::*;
use vstd::arithmetic::mul::lemma_mul_basics;
use crate::shape::{lemma_index2, lemma_size_take, lemma_unindex2, shape_size};

verus! {

/// The dimension of `s` that stands `k` places before its last one, or 1
/// where `s` has none there: shapes are lined up at their last dimension.
pub open spec fn dim_from_end(s: Seq<usize>, k: int) -> usize {
    if 0 <= k < s.len() {
        s[s.len() - 1 - k]
    } else {
        1
    }
}

/// The larger of the two ranks.
pub open spec fn max_rank(a: Seq<usize>, b: Seq<usize>) -> nat {
    if a.len() >= b.len() {
        a.len()
    } else {
        b.len()
    }
}

/// Two dimensions go together: they are equal, or one of them is 1 and is
/// stretched.
pub open spec fn dims_compatible(x: usize, y: usize) -> bool {
    x == y || x == 1 || y == 1
}

/// The dimension that two compatible dimensions give.
pub open spec fn broadcast_dim(x: usize, y: usize) -> usize {
    if x == 1 {
        y
    } else {
        x
    }
}

/// The shapes `a` and `b` go together, dimension by dimension from the last.
pub open spec fn broadcast_compatible(a: Seq<usize>, b: Seq<usize>) -> bool {
    forall|k: int|
        0 <= k < max_rank(a, b) ==> dims_compatible(#[trigger] dim_from_end(a, k), dim_from_end(b, k))
}

/// The shape that `a` and `b` are both stretched to.
pub open spec fn broadcast_shape(a: Seq<usize>, b: Seq<usize>) -> Seq<usize> {
    let n = max_rank(a, b) as int;
    Seq::new(
        n as nat,
        |i: int| broadcast_dim(dim_from_end(a, n - 1 - i), dim_from_end(b, n - 1 - i)),
    )
}

/// `from` can be stretched to `to`: each of its dimensions is that of `to`
/// at the same place from the end, or 1.
pub open spec fn stretches_to(from: Seq<usize>, to: Seq<usize>) -> bool {
    &&& from.len() <= to.len()
    &&& forall|k: int|
        0 <= k < from.len() ==> (#[trigger] dim_from_end(from, k) == dim_from_end(to, k)
            || dim_from_end(from, k) == 1)
}

/// The place, in a tensor of the dimensions `from`, of the element that
/// stands at place `p` once the tensor is stretched to the dimensions `to`.
pub open spec fn broadcast_src(from: Seq<usize>, to: Seq<usize>, p: int) -> int
    decreases from.len(),
{
    if from.len() == 0 || to.len() == 0 {
        0
    } else {
        let f = from.last() as int;
        let d = to.last() as int;
        broadcast_src(from.drop_last(), to.drop_last(), p / d) * f + (if f == 1 {
            0
        } else {
            p % d
        })
    }
}

/// Compatible shapes can each be stretched to their common shape.
pub proof fn lemma_broadcast_stretches(a: Seq<usize>, b: Seq<usize>)
    requires
        broadcast_compatible(a, b),
    ensures
        stretches_to(a, broadcast_shape(a, b)),
        stretches_to(b, broadcast_shape(a, b)),
{
    let out = broadcast_shape(a, b);
    assert forall|k: int| 0 <= k < a.len() implies (#[trigger] dim_from_end(a, k) == dim_from_end(out, k)
        || dim_from_end(a, k) == 1) by {
        assert(dims_compatible(dim_from_end(a, k), dim_from_end(b, k)));
    }
    assert forall|k: int| 0 <= k < b.len() implies (#[trigger] dim_from_end(b, k) == dim_from_end(out, k)
        || dim_from_end(b, k) == 1) by {
        assert(dims_compatible(dim_from_end(a, k), dim_from_end(b, k)));
    }
}

/// A shape goes together with itself, and stays as it is.
pub proof fn lemma_broadcast_same(a: Seq<usize>)
    ensures
        broadcast_compatible(a, a),
        broadcast_shape(a, a) == a,
{
    assert(broadcast_shape(a, a) =~= a);
}

/// A shape stretched to itself leaves every element at its place.
pub proof fn lemma_broadcast_src_same(s: Seq<usize>, p: int)
    requires
        0 <= p < shape_size(s),
    ensures
        broadcast_src(s, s, p) == p,
    decreases s.len(),
{
    if s.len() > 0 {
        let d = s.last() as int;
        lemma_unindex2(p, shape_size(s.drop_last()) as int, d);
        lemma_broadcast_src_same(s.drop_last(), p / d);
        if d == 1 {
            lemma_mul_basics(p / d);
        }
    }
}

proof fn lemma_stretches_prefix(from: Seq<usize>, to: Seq<usize>)
    requires
        stretches_to(from, to),
        from.len() > 0,
    ensures
        stretches_to(from.drop_last(), to.drop_last()),
        from.last() == to.last() || from.last() == 1,
{
    assert(dim_from_end(from, 0) == from.last());
    assert(dim_from_end(to, 0) == to.last());
    assert forall|k: int| 0 <= k < from.drop_last().len() implies (#[trigger] dim_from_end(
        from.drop_last(),
        k,
    ) == dim_from_end(to.drop_last(), k) || dim_from_end(from.drop_last(), k) == 1) by {
        assert(dim_from_end(from.drop_last(), k) == dim_from_end(from, k + 1));
        assert(dim_from_end(to.drop_last(), k) == dim_from_end(to, k + 1));
    }
}

/// Every place of the stretched tensor has its source within the tensor
/// that was stretched.
pub proof fn lemma_broadcast_src_bound(from: Seq<usize>, to: Seq<usize>, p: int)
    requires
        stretches_to(from, to),
        0 <= p < shape_size(to),
    ensures
        0 <= broadcast_src(from, to, p) < shape_size(from),
    decreases from.len(),
{
    if from.len() > 0 {
        lemma_stretches_prefix(from, to);
        let f = from.last() as int;
        let d = to.last() as int;
        lemma_unindex2(p, shape_size(to.drop_last()) as int, d);
        lemma_broadcast_src_bound(from.drop_last(), to.drop_last(), p / d);
        let rest = broadcast_src(from.drop_last(), to.drop_last(), p / d);
        if f == 1 {
            lemma_mul_basics(rest);
            lemma_mul_basics(shape_size(from.drop_last()) as int);
        } else {
            lemma_index2(rest, p % d, shape_size(from.drop_last()) as int, d);
        }
    }
}

/// The common shape of `a` and `b`, or `None` where they do not go
/// together.
pub fn broadcast_shapes(a: &Vec<usize>, b: &Vec<usize>) -> (r: Option<Vec<usize>>)
    ensures
        match r {
            Some(s) => broadcast_compatible(a@, b@) && s@ == broadcast_shape(a@, b@),
            None => !broadcast_compatible(a@, b@),
        },
{
    let al = a.len();
    let bl = b.len();
    let n = if al >= bl {
        al
    } else {
        bl
    };
    let mut out: Vec<usize> = Vec::new();
    let mut i: usize = 0;
    while i < n
        invariant
            i <= n,
            al == a@.len(),
            bl == b@.len(),
            n == max_rank(a@, b@),
            out@.len() == i,
            forall|j: int|
                0 <= j < i ==> #[trigger] out@[j] == broadcast_dim(
                    dim_from_end(a@, n - 1 - j),
                    dim_from_end(b@, n - 1 - j),
                ),
            forall|k: int|
                n - i <= k < n ==> dims_compatible(#[trigger] dim_from_end(a@, k), dim_from_end(b@, k)),
        decreases n - i,
    {
        let k = n - 1 - i;
        let x = if k < al {
            a[al - 1 - k]
        } else {
            1
        };
        let y = if k < bl {
            b[bl - 1 - k]
        } else {
            1
        };
        assert(x == dim_from_end(a@, k as int));
        assert(y == dim_from_end(b@, k as int));
        if !(x == y || x == 1 || y == 1) {
            return None;
        }
        out.push(
            if x == 1 {
                y
            } else {
                x
            },
        );
        i += 1;
    }
    assert(out@ =~= broadcast_shape(a@, b@));
    Some(out)
}

/// The place that `broadcast_src` names, for the first `fl` dimensions of
/// `from` stretched to the first `tl` dimensions of `to`.
pub(crate) fn broadcast_offset(from: &Vec<usize>, to: &Vec<usize>, fl: usize, tl: usize, p: usize) -> (r:
    usize)
    requires
        fl <= from@.len(),
        tl <= to@.len(),
        stretches_to(from@.take(fl as int), to@.take(tl as int)),
        p < shape_size(to@.take(tl as int)),
        shape_size(from@.take(fl as int)) <= usize::MAX,
    ensures
        r == broadcast_src(from@.take(fl as int), to@.take(tl as int), p as int),
        r < shape_size(from@.take(fl as int)),
    decreases fl,
{
    let ghost fs = from@.take(fl as int);
    let ghost ts = to@.take(tl as int);
    proof {
        lemma_broadcast_src_bound(fs, ts, p as int);
    }
    if fl == 0 || tl == 0 {
        0
    } else {
        let f = from[fl - 1];
        let d = to[tl - 1];
        proof {
            lemma_stretches_prefix(fs, ts);
            assert(fs.drop_last() =~= from@.take(fl - 1));
            assert(ts.drop_last() =~= to@.take(tl - 1));
            lemma_size_take(from@, fl - 1);
            lemma_size_take(to@, tl - 1);
            lemma_unindex2(p as int, shape_size(ts.drop_last()) as int, d as int);
            let lead = shape_size(fs.drop_last()) as int;
            assert(lead <= lead * f) by (nonlinear_arith)
                requires
                    f >= 1,
                    lead >= 0,
            ;
            lemma_broadcast_src_bound(fs.drop_last(), ts.drop_last(), p as int / d as int);
        }
        let rest = broadcast_offset(from, to, fl - 1, tl - 1, p / d);
        let idx = if f == 1 {
            0
        } else {
            p % d
        };
        proof {
            let size = shape_size(fs.drop_last()) as int;
            if f == 1 {
                lemma_mul_basics(rest as int);
            } else {
                lemma_index2(rest as int, idx as int, size, f as int);
            }
        }
        rest * f + idx
    }
}

} // verus!
