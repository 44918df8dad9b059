use vstd::prelude::*;
use vstd::arithmetic::div_mod::{lemma_fundamental_div_mod, lemma_mod_multiples_basic};
use vstd::arithmetic::mul::{
    lemma_mul_basics, lemma_mul_is_associative, lemma_mul_is_commutative, lemma_mul_nonnegative,
};
use crate::broadcasting::broadcast_src;
use crate::elementwise::{binary_rel, div_scalar_rel, map_silu_rel, silu_rel, zip_rel, BinaryOp};
use crate::layout::{
    at2, at3, merge_heads_rel, repeat_rel, select_rel, split_heads_rel, split_ok, swap01_rel,
    swap12_rel,
};
use crate::matmul::{batched_matmul_rel, matmul_rel, matrix_col, matrix_row};
use crate::rmsnorm::{inv_rms_rel, rmsnorm_rel, rmsnorm_row_rel, scaled_rel};
use crate::rope::{
    rope_angle_rel, rope_at_rel, rope_rel, rope_row_rel, rope_table_rel, rope_tokens_rel, rot_first,
    rot_second,
};
use crate::scalar::{dot_acc, strided, Scalar};
use crate::shape::{
    lemma_size_2, lemma_size_3, lemma_size_split, lemma_size_take, lemma_unindex2, lemma_unindex3,
    shape_size,
};
use crate::softmax::{
    lane, max_acc, shifted_exp, softmax_axis, softmax_lane_rel, softmax_ok, softmax_parts,
    softmax_rel, sum_acc,
};
use crate::tensor::{row_count, row_of, TensorView};

verus! {

/// Each operation of the element type has one outcome for given operands.
pub open spec fn deterministic<T: Scalar>() -> bool {
    &&& forall|n: usize, r1: T, r2: T|
        call_ensures(T::from_usize, (n,), r1) && call_ensures(T::from_usize, (n,), r2) ==> r1 == r2
    &&& forall|r1: T, r2: T|
        call_ensures(T::neg_infinity, (), r1) && call_ensures(T::neg_infinity, (), r2) ==> r1 == r2
    &&& forall|a: T, b: T, r1: T, r2: T|
        call_ensures(T::add, (a, b), r1) && call_ensures(T::add, (a, b), r2) ==> r1 == r2
    &&& forall|a: T, b: T, r1: T, r2: T|
        call_ensures(T::sub, (a, b), r1) && call_ensures(T::sub, (a, b), r2) ==> r1 == r2
    &&& forall|a: T, b: T, r1: T, r2: T|
        call_ensures(T::mul, (a, b), r1) && call_ensures(T::mul, (a, b), r2) ==> r1 == r2
    &&& forall|a: T, b: T, r1: T, r2: T|
        call_ensures(T::div, (a, b), r1) && call_ensures(T::div, (a, b), r2) ==> r1 == r2
    &&& forall|a: T, b: T, r1: T, r2: T|
        call_ensures(T::max, (a, b), r1) && call_ensures(T::max, (a, b), r2) ==> r1 == r2
    &&& forall|a: T, b: T, r1: T, r2: T|
        call_ensures(T::powf, (a, b), r1) && call_ensures(T::powf, (a, b), r2) ==> r1 == r2
    &&& forall|a: T, r1: T, r2: T|
        call_ensures(T::neg, (a,), r1) && call_ensures(T::neg, (a,), r2) ==> r1 == r2
    &&& forall|a: T, r1: T, r2: T|
        call_ensures(T::exp, (a,), r1) && call_ensures(T::exp, (a,), r2) ==> r1 == r2
    &&& forall|a: T, r1: T, r2: T|
        call_ensures(T::sqrt, (a,), r1) && call_ensures(T::sqrt, (a,), r2) ==> r1 == r2
    &&& forall|a: T, r1: T, r2: T|
        call_ensures(T::sin, (a,), r1) && call_ensures(T::sin, (a,), r2) ==> r1 == r2
    &&& forall|a: T, r1: T, r2: T|
        call_ensures(T::cos, (a,), r1) && call_ensures(T::cos, (a,), r2) ==> r1 == r2
}

/// With deterministic operations an inner product has one outcome.
pub proof fn lemma_dot_unique<T: Scalar>(u: Seq<T>, v: Seq<T>, n: nat, r1: T, r2: T)
    requires
        deterministic::<T>(),
        dot_acc(u, v, n, r1),
        dot_acc(u, v, n, r2),
    ensures
        r1 == r2,
    decreases n,
{
    if n > 0 {
        let (pa, m1) = choose|prev: T, prod: T|
            dot_acc(u, v, (n - 1) as nat, prev) && call_ensures(T::mul, (u[n - 1], v[n - 1]), prod)
                && #[trigger] call_ensures(T::add, (prev, prod), r1);
        let (pb, m2) = choose|prev: T, prod: T|
            dot_acc(u, v, (n - 1) as nat, prev) && call_ensures(T::mul, (u[n - 1], v[n - 1]), prod)
                && #[trigger] call_ensures(T::add, (prev, prod), r2);
        lemma_dot_unique(u, v, (n - 1) as nat, pa, pb);
        assert(m1 == m2);
    }
}

/// With deterministic operations a folded maximum has one outcome.
pub proof fn lemma_max_unique<T: Scalar>(xs: Seq<T>, n: nat, r1: T, r2: T)
    requires
        deterministic::<T>(),
        max_acc(xs, n, r1),
        max_acc(xs, n, r2),
    ensures
        r1 == r2,
    decreases n,
{
    if n > 0 {
        let pa = choose|prev: T|
            max_acc(xs, (n - 1) as nat, prev) && #[trigger] call_ensures(T::max, (prev, xs[n - 1]), r1);
        let pb = choose|prev: T|
            max_acc(xs, (n - 1) as nat, prev) && #[trigger] call_ensures(T::max, (prev, xs[n - 1]), r2);
        lemma_max_unique(xs, (n - 1) as nat, pa, pb);
    }
}

/// With deterministic operations a sum has one outcome.
pub proof fn lemma_sum_unique<T: Scalar>(xs: Seq<T>, n: nat, r1: T, r2: T)
    requires
        deterministic::<T>(),
        sum_acc(xs, n, r1),
        sum_acc(xs, n, r2),
    ensures
        r1 == r2,
    decreases n,
{
    if n > 0 {
        let pa = choose|prev: T|
            sum_acc(xs, (n - 1) as nat, prev) && #[trigger] call_ensures(T::add, (prev, xs[n - 1]), r1);
        let pb = choose|prev: T|
            sum_acc(xs, (n - 1) as nat, prev) && #[trigger] call_ensures(T::add, (prev, xs[n - 1]), r2);
        lemma_sum_unique(xs, (n - 1) as nat, pa, pb);
    }
}

/// With deterministic operations the softmax of a lane has one outcome.
pub proof fn lemma_softmax_lane_unique<T: Scalar>(xs: Seq<T>, y1: Seq<T>, y2: Seq<T>)
    requires
        deterministic::<T>(),
        softmax_lane_rel(xs, y1),
        softmax_lane_rel(xs, y2),
    ensures
        y1 == y2,
{
    let (m1, e1, s1) = choose|m: T, es: Seq<T>, s: T|
        #[trigger] softmax_parts(xs, m, es, s) && forall|a: int|
            0 <= a < xs.len() ==> call_ensures(T::div, (es[a], s), #[trigger] y1[a]);
    let (m2, e2, s2) = choose|m: T, es: Seq<T>, s: T|
        #[trigger] softmax_parts(xs, m, es, s) && forall|a: int|
            0 <= a < xs.len() ==> call_ensures(T::div, (es[a], s), #[trigger] y2[a]);
    lemma_max_unique(xs, xs.len(), m1, m2);
    assert forall|a: int| 0 <= a < xs.len() implies e1[a] == e2[a] by {
        assert(shifted_exp(xs[a], m1, e1[a]));
        assert(shifted_exp(xs[a], m2, e2[a]));
        let d1 = choose|d: T| call_ensures(T::sub, (xs[a], m1), d) && call_ensures(T::exp, (d,), e1[a]);
        let d2 = choose|d: T| call_ensures(T::sub, (xs[a], m2), d) && call_ensures(T::exp, (d,), e2[a]);
        assert(d1 == d2);
    }
    assert(e1 =~= e2);
    lemma_sum_unique(e1, e1.len(), s1, s2);
    assert forall|a: int| 0 <= a < xs.len() implies y1[a] == y2[a] by {
        assert(call_ensures(T::div, (e1[a], s1), y1[a]));
        assert(call_ensures(T::div, (e2[a], s2), y2[a]));
    }
    assert(y1 =~= y2);
}

/// With deterministic operations a matrix product has one outcome.
pub proof fn lemma_matmul_unique<T: Scalar>(
    a: TensorView<T>,
    b: TensorView<T>,
    r1: TensorView<T>,
    r2: TensorView<T>,
)
    requires
        deterministic::<T>(),
        matmul_rel(a, b, r1),
        matmul_rel(a, b, r2),
    ensures
        r1 == r2,
{
    let m = a.shape[0] as int;
    let n = b.shape[1] as int;
    assert forall|p: int| 0 <= p < r1.data.len() implies r1.data[p] == r2.data[p] by {
        lemma_unindex2(p, m, n);
        let i = p / n;
        let j = p % n;
        lemma_dot_unique(
            matrix_row(a, i),
            matrix_col(b, j),
            a.shape[1] as nat,
            at2(r1.data, n, i, j),
            at2(r2.data, n, i, j),
        );
    }
    assert(r1.data =~= r2.data);
}

/// With deterministic operations the products of two stacks of matrices
/// have one outcome.
pub proof fn lemma_batched_matmul_unique<T: Scalar>(
    a: TensorView<T>,
    b: TensorView<T>,
    r1: TensorView<T>,
    r2: TensorView<T>,
)
    requires
        deterministic::<T>(),
        batched_matmul_rel(a, b, r1),
        batched_matmul_rel(a, b, r2),
    ensures
        r1 == r2,
{
    let n = a.shape[0] as int;
    let m = a.shape[1] as int;
    let k = a.shape[2] as int;
    let q = b.shape[2] as int;
    assert forall|p: int| 0 <= p < r1.data.len() implies r1.data[p] == r2.data[p] by {
        lemma_unindex3(p, n, m, q);
        let h = (p / q) / m;
        let i = (p / q) % m;
        let j = p % q;
        lemma_dot_unique(
            strided(a.data, (h * m + i) * k, 1, k as nat),
            strided(b.data, (h * k) * q + j, q, k as nat),
            k as nat,
            at3(r1.data, m, q, h, i, j),
            at3(r2.data, m, q, h, i, j),
        );
    }
    assert(r1.data =~= r2.data);
}

/// With deterministic operations two tensors are combined element by
/// element in one way.
pub proof fn lemma_zip_unique<T: Scalar>(
    op: BinaryOp,
    a: TensorView<T>,
    b: TensorView<T>,
    r1: TensorView<T>,
    r2: TensorView<T>,
)
    requires
        deterministic::<T>(),
        zip_rel(op, a, b, r1),
        zip_rel(op, a, b, r2),
    ensures
        r1 == r2,
{
    assert forall|p: int| 0 <= p < r1.data.len() implies r1.data[p] == r2.data[p] by {
        let x = a.data[broadcast_src(a.shape, r1.shape, p)];
        let y = b.data[broadcast_src(b.shape, r1.shape, p)];
        assert(binary_rel(op, x, y, r1.data[p]));
        assert(binary_rel(op, x, y, r2.data[p]));
    }
    assert(r1.data =~= r2.data);
}

/// With deterministic operations the SiLU of an element has one outcome.
pub proof fn lemma_silu_unique<T: Scalar>(x: T, y1: T, y2: T)
    requires
        deterministic::<T>(),
        silu_rel(x, y1),
        silu_rel(x, y2),
    ensures
        y1 == y2,
{
    let (n1, e1, o1, d1) = choose|ng: T, e: T, one: T, den: T|
        #[trigger] call_ensures(T::neg, (x,), ng) && call_ensures(T::exp, (ng,), e) && call_ensures(
            T::from_usize,
            (1usize,),
            one,
        ) && #[trigger] call_ensures(T::add, (one, e), den) && call_ensures(T::div, (x, den), y1);
    let (n2, e2, o2, d2) = choose|ng: T, e: T, one: T, den: T|
        #[trigger] call_ensures(T::neg, (x,), ng) && call_ensures(T::exp, (ng,), e) && call_ensures(
            T::from_usize,
            (1usize,),
            one,
        ) && #[trigger] call_ensures(T::add, (one, e), den) && call_ensures(T::div, (x, den), y2);
    assert(n1 == n2);
    assert(e1 == e2);
    assert(o1 == o2);
    assert(d1 == d2);
}

/// With deterministic operations the SiLU of a tensor has one outcome.
pub proof fn lemma_map_silu_unique<T: Scalar>(x: TensorView<T>, r1: TensorView<T>, r2: TensorView<T>)
    requires
        deterministic::<T>(),
        map_silu_rel(x, r1),
        map_silu_rel(x, r2),
    ensures
        r1 == r2,
{
    assert forall|p: int| 0 <= p < r1.data.len() implies r1.data[p] == r2.data[p] by {
        lemma_silu_unique(x.data[p], r1.data[p], r2.data[p]);
    }
    assert(r1.data =~= r2.data);
}

/// With deterministic operations the division of a tensor by an element has
/// one outcome.
pub proof fn lemma_div_scalar_unique<T: Scalar>(
    x: TensorView<T>,
    s: T,
    r1: TensorView<T>,
    r2: TensorView<T>,
)
    requires
        deterministic::<T>(),
        div_scalar_rel(x, s, r1),
        div_scalar_rel(x, s, r2),
    ensures
        r1 == r2,
{
    assert forall|p: int| 0 <= p < r1.data.len() implies r1.data[p] == r2.data[p] by {
        assert(call_ensures(T::div, (x.data[p], s), r1.data[p]));
        assert(call_ensures(T::div, (x.data[p], s), r2.data[p]));
    }
    assert(r1.data =~= r2.data);
}

/// Elements that agree run by run agree everywhere.
pub proof fn lemma_rows_equal<T>(a: Seq<T>, b: Seq<T>, d: int)
    requires
        a.len() == b.len(),
        d > 0 ==> a.len() % (d as nat) == 0,
        d <= 0 ==> a.len() == 0,
        forall|t: int| 0 <= t < row_count(a.len(), d) ==> #[trigger] row_of(a, d, t) == row_of(b, d, t),
    ensures
        a == b,
{
    assert forall|p: int| 0 <= p < a.len() implies a[p] == b[p] by {
        let rows = row_count(a.len(), d);
        lemma_fundamental_div_mod(a.len() as int, d);
        lemma_mul_is_commutative(d, rows);
        lemma_unindex2(p, rows, d);
        let t = p / d;
        let c = p % d;
        assert(0 <= t * d && t * d + d <= rows * d) by (nonlinear_arith)
            requires
                0 <= t < rows,
                d > 0,
        ;
        assert(row_of(a, d, t)[c] == a[p]);
        assert(row_of(b, d, t)[c] == b[p]);
    }
    assert(a =~= b);
}

/// The elements of a well-formed tensor with a last axis come in whole
/// rows.
pub proof fn lemma_whole_rows<T>(x: TensorView<T>)
    requires
        x.wf(),
        x.shape.len() >= 1,
    ensures
        x.shape.last() > 0 ==> x.data.len() % (x.shape.last() as nat) == 0,
        x.shape.last() == 0 ==> x.data.len() == 0,
{
    let d = x.shape.last() as int;
    let lead = shape_size(x.shape.drop_last()) as int;
    if d > 0 {
        lemma_mod_multiples_basic(lead, d);
    } else {
        lemma_mul_basics(lead);
    }
}

/// With deterministic operations the inverse root mean square of a row has
/// one outcome.
pub proof fn lemma_inv_rms_unique<T: Scalar>(xs: Seq<T>, eps: T, r1: T, r2: T)
    requires
        deterministic::<T>(),
        inv_rms_rel(xs, eps, r1),
        inv_rms_rel(xs, eps, r2),
    ensures
        r1 == r2,
{
    let (ss1, nf1, mean1, ve1, sq1, one1) = choose|ss: T, nf: T, mean: T, ve: T, sq: T, one: T|
        dot_acc(xs, xs, xs.len(), ss) && call_ensures(T::from_usize, (xs.len() as usize,), nf)
            && #[trigger] call_ensures(T::div, (ss, nf), mean) && #[trigger] call_ensures(
            T::add,
            (mean, eps),
            ve,
        ) && call_ensures(T::sqrt, (ve,), sq) && call_ensures(T::from_usize, (1usize,), one)
            && #[trigger] call_ensures(T::div, (one, sq), r1);
    let (ss2, nf2, mean2, ve2, sq2, one2) = choose|ss: T, nf: T, mean: T, ve: T, sq: T, one: T|
        dot_acc(xs, xs, xs.len(), ss) && call_ensures(T::from_usize, (xs.len() as usize,), nf)
            && #[trigger] call_ensures(T::div, (ss, nf), mean) && #[trigger] call_ensures(
            T::add,
            (mean, eps),
            ve,
        ) && call_ensures(T::sqrt, (ve,), sq) && call_ensures(T::from_usize, (1usize,), one)
            && #[trigger] call_ensures(T::div, (one, sq), r2);
    lemma_dot_unique(xs, xs, xs.len(), ss1, ss2);
    assert(nf1 == nf2);
    assert(mean1 == mean2);
    assert(ve1 == ve2);
    assert(sq1 == sq2);
    assert(one1 == one2);
}

/// With deterministic operations the normalisation of a row has one
/// outcome.
pub proof fn lemma_rmsnorm_row_unique<T: Scalar>(xs: Seq<T>, w: Seq<T>, eps: T, y1: Seq<T>, y2: Seq<T>)
    requires
        deterministic::<T>(),
        rmsnorm_row_rel(xs, w, eps, y1),
        rmsnorm_row_rel(xs, w, eps, y2),
    ensures
        y1 == y2,
{
    let rr1 = choose|rr: T|
        #[trigger] inv_rms_rel(xs, eps, rr) && forall|c: int|
            0 <= c < xs.len() ==> scaled_rel(xs[c], rr, w[c], #[trigger] y1[c]);
    let rr2 = choose|rr: T|
        #[trigger] inv_rms_rel(xs, eps, rr) && forall|c: int|
            0 <= c < xs.len() ==> scaled_rel(xs[c], rr, w[c], #[trigger] y2[c]);
    lemma_inv_rms_unique(xs, eps, rr1, rr2);
    assert forall|c: int| 0 <= c < xs.len() implies y1[c] == y2[c] by {
        assert(scaled_rel(xs[c], rr1, w[c], y1[c]));
        assert(scaled_rel(xs[c], rr2, w[c], y2[c]));
        let t1 = choose|t: T| call_ensures(T::mul, (xs[c], rr1), t) && call_ensures(T::mul, (t, w[c]), y1[c]);
        let t2 = choose|t: T| call_ensures(T::mul, (xs[c], rr2), t) && call_ensures(T::mul, (t, w[c]), y2[c]);
        assert(t1 == t2);
    }
    assert(y1 =~= y2);
}

/// With deterministic operations the normalisation of a tensor has one
/// outcome.
pub proof fn lemma_rmsnorm_unique<T: Scalar>(
    x: TensorView<T>,
    w: TensorView<T>,
    eps: T,
    r1: TensorView<T>,
    r2: TensorView<T>,
)
    requires
        deterministic::<T>(),
        x.wf(),
        x.shape.len() >= 1,
        rmsnorm_rel(x, w, eps, r1),
        rmsnorm_rel(x, w, eps, r2),
    ensures
        r1 == r2,
{
    let d = x.shape.last() as int;
    lemma_whole_rows(x);
    assert forall|t: int| 0 <= t < row_count(r1.data.len(), d) implies #[trigger] row_of(r1.data, d, t)
        == row_of(r2.data, d, t) by {
        lemma_rmsnorm_row_unique(
            row_of(x.data, d, t),
            w.data,
            eps,
            row_of(r1.data, d, t),
            row_of(r2.data, d, t),
        );
    }
    lemma_rows_equal(r1.data, r2.data, d);
}

/// With deterministic operations the cosine and the sine of a pair's angle
/// have one outcome each.
pub proof fn lemma_rope_angle_unique<T: Scalar>(
    i: usize,
    rotary_dim: usize,
    pos: usize,
    theta: T,
    c1: T,
    s1: T,
    c2: T,
    s2: T,
)
    requires
        deterministic::<T>(),
        rope_angle_rel(i, rotary_dim, pos, theta, c1, s1),
        rope_angle_rel(i, rotary_dim, pos, theta, c2, s2),
    ensures
        c1 == c2,
        s1 == s2,
{
    let (num1, den1, e1, pw1, one1, inv1, pf1, ang1) = choose|
        num: T,
        den: T,
        e: T,
        pw: T,
        one: T,
        inv: T,
        pf: T,
        ang: T,
    |
        call_ensures(T::from_usize, ((2 * i) as usize,), num) && call_ensures(
            T::from_usize,
            (rotary_dim,),
            den,
        ) && #[trigger] call_ensures(T::div, (num, den), e) && call_ensures(T::powf, (theta, e), pw)
            && call_ensures(T::from_usize, (1usize,), one) && #[trigger] call_ensures(
            T::div,
            (one, pw),
            inv,
        ) && call_ensures(T::from_usize, (pos,), pf) && #[trigger] call_ensures(
            T::mul,
            (pf, inv),
            ang,
        ) && call_ensures(T::cos, (ang,), c1) && call_ensures(T::sin, (ang,), s1);
    let (num2, den2, e2, pw2, one2, inv2, pf2, ang2) = choose|
        num: T,
        den: T,
        e: T,
        pw: T,
        one: T,
        inv: T,
        pf: T,
        ang: T,
    |
        call_ensures(T::from_usize, ((2 * i) as usize,), num) && call_ensures(
            T::from_usize,
            (rotary_dim,),
            den,
        ) && #[trigger] call_ensures(T::div, (num, den), e) && call_ensures(T::powf, (theta, e), pw)
            && call_ensures(T::from_usize, (1usize,), one) && #[trigger] call_ensures(
            T::div,
            (one, pw),
            inv,
        ) && call_ensures(T::from_usize, (pos,), pf) && #[trigger] call_ensures(
            T::mul,
            (pf, inv),
            ang,
        ) && call_ensures(T::cos, (ang,), c2) && call_ensures(T::sin, (ang,), s2);
    assert(num1 == num2);
    assert(den1 == den2);
    assert(e1 == e2);
    assert(pw1 == pw2);
    assert(one1 == one2);
    assert(inv1 == inv2);
    assert(pf1 == pf2);
    assert(ang1 == ang2);
}

/// With deterministic operations the cosines and sines of a position have
/// one outcome.
pub proof fn lemma_rope_table_unique<T: Scalar>(
    rotary_dim: usize,
    pos: usize,
    theta: T,
    cos1: Seq<T>,
    sin1: Seq<T>,
    cos2: Seq<T>,
    sin2: Seq<T>,
)
    requires
        deterministic::<T>(),
        rope_table_rel(rotary_dim, pos, theta, cos1, sin1),
        rope_table_rel(rotary_dim, pos, theta, cos2, sin2),
    ensures
        cos1 == cos2,
        sin1 == sin2,
{
    assert forall|i: int| 0 <= i < rotary_dim / 2 implies cos1[i] == cos2[i] && sin1[i] == sin2[i] by {
        lemma_rope_angle_unique(
            i as usize,
            rotary_dim,
            pos,
            theta,
            cos1[i],
            sin1[i],
            cos2[i],
            sin2[i],
        );
    }
    assert(cos1 =~= cos2);
    assert(sin1 =~= sin2);
}

/// With deterministic operations the turning of a row has one outcome.
pub proof fn lemma_rope_row_unique<T: Scalar>(
    xs: Seq<T>,
    cos: Seq<T>,
    sin: Seq<T>,
    y1: Seq<T>,
    y2: Seq<T>,
)
    requires
        deterministic::<T>(),
        rope_row_rel(xs, cos, sin, y1),
        rope_row_rel(xs, cos, sin, y2),
    ensures
        y1 == y2,
{
    assert forall|j: int| 0 <= j < xs.len() implies y1[j] == y2[j] by {
        if j < 2 * cos.len() {
            let i = j / 2;
            let c = cos[i];
            let s = sin[i];
            let x1 = xs[2 * i];
            let x2 = xs[2 * i + 1];
            assert(rot_first(x1, x2, c, s, y1[2 * i]) && rot_second(x1, x2, c, s, y1[2 * i + 1]));
            assert(rot_first(x1, x2, c, s, y2[2 * i]) && rot_second(x1, x2, c, s, y2[2 * i + 1]));
            if j % 2 == 0 {
                let (a1, b1) = choose|a: T, b: T|
                    call_ensures(T::mul, (x1, c), a) && call_ensures(T::mul, (x2, s), b)
                        && #[trigger] call_ensures(T::sub, (a, b), y1[2 * i]);
                let (a2, b2) = choose|a: T, b: T|
                    call_ensures(T::mul, (x1, c), a) && call_ensures(T::mul, (x2, s), b)
                        && #[trigger] call_ensures(T::sub, (a, b), y2[2 * i]);
                assert(a1 == a2 && b1 == b2);
            } else {
                let (a1, b1) = choose|a: T, b: T|
                    call_ensures(T::mul, (x2, c), a) && call_ensures(T::mul, (x1, s), b)
                        && #[trigger] call_ensures(T::add, (a, b), y1[2 * i + 1]);
                let (a2, b2) = choose|a: T, b: T|
                    call_ensures(T::mul, (x2, c), a) && call_ensures(T::mul, (x1, s), b)
                        && #[trigger] call_ensures(T::add, (a, b), y2[2 * i + 1]);
                assert(a1 == a2 && b1 == b2);
            }
        }
    }
    assert(y1 =~= y2);
}

/// With deterministic operations the turning of a row by the angles of a
/// position has one outcome.
pub proof fn lemma_rope_at_unique<T: Scalar>(
    xs: Seq<T>,
    pos: usize,
    rotary_dim: usize,
    theta: T,
    y1: Seq<T>,
    y2: Seq<T>,
)
    requires
        deterministic::<T>(),
        rope_at_rel(xs, pos, rotary_dim, theta, y1),
        rope_at_rel(xs, pos, rotary_dim, theta, y2),
    ensures
        y1 == y2,
{
    let (cos1, sin1) = choose|cos: Seq<T>, sin: Seq<T>|
        #[trigger] rope_table_rel(rotary_dim, pos, theta, cos, sin) && rope_row_rel(xs, cos, sin, y1);
    let (cos2, sin2) = choose|cos: Seq<T>, sin: Seq<T>|
        #[trigger] rope_table_rel(rotary_dim, pos, theta, cos, sin) && rope_row_rel(xs, cos, sin, y2);
    lemma_rope_table_unique(rotary_dim, pos, theta, cos1, sin1, cos2, sin2);
    lemma_rope_row_unique(xs, cos1, sin1, y1, y2);
}

/// With deterministic operations the rotary embedding at one position has
/// one outcome.
pub proof fn lemma_rope_unique<T: Scalar>(
    x: TensorView<T>,
    pos: usize,
    rotary_dim: usize,
    theta: T,
    r1: TensorView<T>,
    r2: TensorView<T>,
)
    requires
        deterministic::<T>(),
        x.wf(),
        x.shape.len() >= 1,
        rope_rel(x, pos, rotary_dim, theta, r1),
        rope_rel(x, pos, rotary_dim, theta, r2),
    ensures
        r1 == r2,
{
    let d = x.shape.last() as int;
    lemma_whole_rows(x);
    let (cos1, sin1) = choose|cos: Seq<T>, sin: Seq<T>|
        #[trigger] rope_table_rel(rotary_dim, pos, theta, cos, sin) && forall|t: int|
            0 <= t < row_count(x.data.len(), d) ==> rope_row_rel(
                row_of(x.data, d, t),
                cos,
                sin,
                #[trigger] row_of(r1.data, d, t),
            );
    let (cos2, sin2) = choose|cos: Seq<T>, sin: Seq<T>|
        #[trigger] rope_table_rel(rotary_dim, pos, theta, cos, sin) && forall|t: int|
            0 <= t < row_count(x.data.len(), d) ==> rope_row_rel(
                row_of(x.data, d, t),
                cos,
                sin,
                #[trigger] row_of(r2.data, d, t),
            );
    lemma_rope_table_unique(rotary_dim, pos, theta, cos1, sin1, cos2, sin2);
    assert forall|t: int| 0 <= t < row_count(r1.data.len(), d) implies #[trigger] row_of(r1.data, d, t)
        == row_of(r2.data, d, t) by {
        assert(rope_row_rel(row_of(x.data, d, t), cos1, sin1, row_of(r1.data, d, t)));
        assert(rope_row_rel(row_of(x.data, d, t), cos2, sin2, row_of(r2.data, d, t)));
        lemma_rope_row_unique(
            row_of(x.data, d, t),
            cos1,
            sin1,
            row_of(r1.data, d, t),
            row_of(r2.data, d, t),
        );
    }
    lemma_rows_equal(r1.data, r2.data, d);
}

/// With deterministic operations the rotary embedding of a sequence of
/// tokens has one outcome.
pub proof fn lemma_rope_tokens_unique<T: Scalar>(
    x: TensorView<T>,
    base: usize,
    rotary_dim: usize,
    theta: T,
    r1: TensorView<T>,
    r2: TensorView<T>,
)
    requires
        deterministic::<T>(),
        x.wf(),
        x.shape.len() >= 1,
        rope_tokens_rel(x, base, rotary_dim, theta, r1),
        rope_tokens_rel(x, base, rotary_dim, theta, r2),
    ensures
        r1 == r2,
{
    let d = x.shape.last() as int;
    lemma_whole_rows(x);
    assert forall|t: int| 0 <= t < row_count(r1.data.len(), d) implies #[trigger] row_of(r1.data, d, t)
        == row_of(r2.data, d, t) by {
        lemma_rope_at_unique(
            row_of(x.data, d, t),
            (base + t) as usize,
            rotary_dim,
            theta,
            row_of(r1.data, d, t),
            row_of(r2.data, d, t),
        );
    }
    lemma_rows_equal(r1.data, r2.data, d);
}

/// With deterministic operations the softmax of a tensor along an axis has
/// one outcome.
pub proof fn lemma_softmax_unique<T: Scalar>(
    x: TensorView<T>,
    axis: usize,
    r1: TensorView<T>,
    r2: TensorView<T>,
)
    requires
        deterministic::<T>(),
        x.wf(),
        softmax_ok(x.shape, axis),
        softmax_rel(x, axis, r1),
        softmax_rel(x, axis, r2),
    ensures
        r1 == r2,
{
    let ax = softmax_axis(x.shape, axis);
    let outer = shape_size(x.shape.take(ax)) as int;
    let n = x.shape[ax] as int;
    let inner = shape_size(x.shape.skip(ax + 1)) as int;
    lemma_size_split(x.shape, ax + 1);
    lemma_size_take(x.shape, ax);
    lemma_mul_is_associative(outer, n, inner);
    assert forall|p: int| 0 <= p < r1.data.len() implies r1.data[p] == r2.data[p] by {
        lemma_unindex3(p, outer, n, inner);
        let o = (p / inner) / n;
        let a = (p / inner) % n;
        let i = p % inner;
        lemma_softmax_lane_unique(
            lane(x.data, n, inner, o, i),
            lane(r1.data, n, inner, o, i),
            lane(r2.data, n, inner, o, i),
        );
        assert((o * n + a) * inner + i == (o * n) * inner + i + a * inner) by (nonlinear_arith);
        assert(lane(r1.data, n, inner, o, i)[a] == r1.data[p]);
        assert(lane(r2.data, n, inner, o, i)[a] == r2.data[p]);
    }
    assert(r1.data =~= r2.data);
}

/// A tensor of rank 3 has one exchange of its first two axes.
pub proof fn lemma_swap01_unique<T>(x: TensorView<T>, r1: TensorView<T>, r2: TensorView<T>)
    requires
        x.wf(),
        x.shape.len() == 3,
        swap01_rel(x, r1),
        swap01_rel(x, r2),
    ensures
        r1 == r2,
{
    let a = x.shape[0] as int;
    let b = x.shape[1] as int;
    let c = x.shape[2] as int;
    lemma_size_3(x.shape);
    assert(a * b * c == b * a * c) by (nonlinear_arith);
    assert forall|p: int| 0 <= p < r1.data.len() implies r1.data[p] == r2.data[p] by {
        lemma_unindex3(p, b, a, c);
        let j = (p / c) / a;
        let i = (p / c) % a;
        let k = p % c;
        assert(at3(r1.data, a, c, j, i, k) == at3(x.data, b, c, i, j, k));
        assert(at3(r2.data, a, c, j, i, k) == at3(x.data, b, c, i, j, k));
    }
    assert(r1.data =~= r2.data);
}

/// A tensor of rank 3 has one exchange of its last two axes.
pub proof fn lemma_swap12_unique<T>(x: TensorView<T>, r1: TensorView<T>, r2: TensorView<T>)
    requires
        x.wf(),
        x.shape.len() == 3,
        swap12_rel(x, r1),
        swap12_rel(x, r2),
    ensures
        r1 == r2,
{
    let a = x.shape[0] as int;
    let b = x.shape[1] as int;
    let c = x.shape[2] as int;
    lemma_size_3(x.shape);
    assert(a * b * c == a * c * b) by (nonlinear_arith);
    assert forall|p: int| 0 <= p < r1.data.len() implies r1.data[p] == r2.data[p] by {
        lemma_unindex3(p, a, c, b);
        let i = (p / b) / c;
        let k = (p / b) % c;
        let j = p % b;
        assert(at3(r1.data, c, b, i, k, j) == at3(x.data, b, c, i, j, k));
        assert(at3(r2.data, c, b, i, k, j) == at3(x.data, b, c, i, j, k));
    }
    assert(r1.data =~= r2.data);
}

/// A matrix has one way of laying its heads one after the other.
pub proof fn lemma_split_heads_unique<T>(
    x: TensorView<T>,
    heads: usize,
    head_dim: usize,
    r1: TensorView<T>,
    r2: TensorView<T>,
)
    requires
        x.wf(),
        split_ok(x.shape, heads, head_dim),
        split_heads_rel(x, heads, head_dim, r1),
        split_heads_rel(x, heads, head_dim, r2),
    ensures
        r1 == r2,
{
    let s = x.shape[0] as int;
    let n = heads as int;
    let hd = head_dim as int;
    lemma_size_2(x.shape);
    assert(s * (n * hd) == n * s * hd) by (nonlinear_arith);
    assert forall|p: int| 0 <= p < r1.data.len() implies r1.data[p] == r2.data[p] by {
        lemma_unindex3(p, n, s, hd);
        let h = (p / hd) / s;
        let t = (p / hd) % s;
        let d = p % hd;
        assert(at3(r1.data, s, hd, h, t, d) == at3(x.data, n, hd, t, h, d));
        assert(at3(r2.data, s, hd, h, t, d) == at3(x.data, n, hd, t, h, d));
    }
    assert(r1.data =~= r2.data);
}

/// A tensor of rank 3 has one way of laying its heads side by side.
pub proof fn lemma_merge_heads_unique<T>(x: TensorView<T>, r1: TensorView<T>, r2: TensorView<T>)
    requires
        x.wf(),
        x.shape.len() == 3,
        merge_heads_rel(x, r1),
        merge_heads_rel(x, r2),
    ensures
        r1 == r2,
{
    let n = x.shape[0] as int;
    let s = x.shape[1] as int;
    let hd = x.shape[2] as int;
    lemma_size_3(x.shape);
    assert(n * s * hd == s * n * hd) by (nonlinear_arith);
    assert forall|p: int| 0 <= p < r1.data.len() implies r1.data[p] == r2.data[p] by {
        lemma_unindex3(p, s, n, hd);
        let t = (p / hd) / n;
        let h = (p / hd) % n;
        let d = p % hd;
        assert(at3(r1.data, n, hd, t, h, d) == at3(x.data, s, hd, h, t, d));
        assert(at3(r2.data, n, hd, t, h, d) == at3(x.data, s, hd, h, t, d));
    }
    assert(r1.data =~= r2.data);
}

/// The heads of a tensor are repeated in one way.
pub proof fn lemma_repeat_unique<T>(x: TensorView<T>, n_rep: usize, r1: TensorView<T>, r2: TensorView<T>)
    requires
        x.shape.len() == 3,
        repeat_rel(x, n_rep, r1),
        repeat_rel(x, n_rep, r2),
    ensures
        r1 == r2,
{
    let heads = x.shape[0] * n_rep;
    let block = x.shape[1] * x.shape[2];
    lemma_mul_nonnegative(x.shape[0] as int, n_rep as int);
    lemma_mul_nonnegative(x.shape[1] as int, x.shape[2] as int);
    assert forall|p: int| 0 <= p < r1.data.len() implies r1.data[p] == r2.data[p] by {
        lemma_unindex2(p, heads, block);
        let h = p / block;
        let q = p % block;
        assert(at2(r1.data, block, h, q) == at2(x.data, block, h / (n_rep as int), q));
        assert(at2(r2.data, block, h, q) == at2(x.data, block, h / (n_rep as int), q));
    }
    assert(r1.data =~= r2.data);
}

/// The rows that a sequence of indices names are selected in one way.
pub proof fn lemma_select_unique<T>(x: TensorView<T>, rows: Seq<usize>, r1: TensorView<T>, r2: TensorView<T>)
    requires
        x.shape.len() == 2,
        select_rel(x, rows, r1),
        select_rel(x, rows, r2),
    ensures
        r1 == r2,
{
    let d = x.shape[1] as int;
    assert forall|p: int| 0 <= p < r1.data.len() implies r1.data[p] == r2.data[p] by {
        lemma_unindex2(p, rows.len() as int, d);
        let t = p / d;
        let c = p % d;
        assert(at2(r1.data, d, t, c) == at2(x.data, d, rows[t] as int, c));
        assert(at2(r2.data, d, t, c) == at2(x.data, d, rows[t] as int, c));
    }
    assert(r1.data =~= r2.data);
}

} // verus!
