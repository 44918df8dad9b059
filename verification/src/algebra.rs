use vstd::prelude::*;
use crate::elementwise::{binary_rel, lemma_zip_same_shape, zip_rel, BinaryOp};
use crate::layout::{all_zero, at2};
use crate::matmul::{matmul_rel, matrix_col, matrix_row};
use crate::rmsnorm::{inv_rms_rel, rmsnorm_ok, rmsnorm_rel, rmsnorm_row_rel, scaled_rel};
use crate::scalar::{dot_acc, Scalar};
use crate::shape::{lemma_index2, lemma_size_1, lemma_size_2, lemma_unindex2};
use crate::tensor::{row_count, row_of, TensorView};

verus! {

/// `z` is an outcome of the element that stands for 0.
pub open spec fn is_zero<T: Scalar>(z: T) -> bool {
    call_ensures(T::from_usize, (0usize,), z)
}

/// `o` is an outcome of the element that stands for 1.
pub open spec fn is_one<T: Scalar>(o: T) -> bool {
    call_ensures(T::from_usize, (1usize,), o)
}

/// Whatever is multiplied by zero is zero, and zero plus zero is zero.
pub open spec fn zero_absorbs<T: Scalar>() -> bool {
    &&& forall|x: T, z: T, r: T| is_zero(z) && #[trigger] call_ensures(T::mul, (x, z), r) ==> is_zero(r)
    &&& forall|a: T, b: T, r: T|
        is_zero(a) && is_zero(b) && #[trigger] call_ensures(T::add, (a, b), r) ==> is_zero(r)
}

/// Whatever is multiplied by one stays as it is.
pub open spec fn one_is_neutral<T: Scalar>() -> bool {
    forall|x: T, o: T, r: T| is_one(o) && #[trigger] call_ensures(T::mul, (x, o), r) ==> r == x
}

/// Whatever zero is added to, and whatever is added to zero, stays as it
/// is.
pub open spec fn zero_is_neutral<T: Scalar>() -> bool {
    &&& forall|x: T, z: T, r: T| is_zero(z) && #[trigger] call_ensures(T::add, (x, z), r) ==> r == x
    &&& forall|x: T, z: T, r: T| is_zero(z) && #[trigger] call_ensures(T::add, (z, x), r) ==> r == x
}

/// A square matrix with ones on its diagonal and zeros elsewhere.
pub open spec fn is_identity<T: Scalar>(m: TensorView<T>) -> bool {
    &&& m.shape.len() == 2
    &&& m.shape[0] == m.shape[1]
    &&& m.wf()
    &&& forall|i: int, j: int|
        0 <= i < m.shape[0] && 0 <= j < m.shape[1] ==> if i == j {
            is_one(#[trigger] at2(m.data, m.shape[1] as int, i, j))
        } else {
            is_zero(at2(m.data, m.shape[1] as int, i, j))
        }
}

/// Where zero absorbs and is neutral and one is neutral, an inner product
/// with a sequence that is one at place `j` and zero elsewhere is the
/// element at place `j`, or zero where the product ends before it.
pub proof fn lemma_dot_with_unit<T: Scalar>(u: Seq<T>, v: Seq<T>, n: nat, j: int, acc: T)
    requires
        zero_absorbs::<T>(),
        zero_is_neutral::<T>(),
        one_is_neutral::<T>(),
        0 <= j,
        n <= v.len(),
        forall|c: int| 0 <= c < n && c != j ==> is_zero(#[trigger] v[c]),
        j < n ==> is_one(v[j]),
        dot_acc(u, v, n, acc),
    ensures
        j < n ==> acc == u[j],
        j >= n ==> is_zero(acc),
    decreases n,
{
    if n > 0 {
        let (prev, prod) = choose|prev: T, prod: T|
            dot_acc(u, v, (n - 1) as nat, prev) && call_ensures(T::mul, (u[n - 1], v[n - 1]), prod)
                && #[trigger] call_ensures(T::add, (prev, prod), acc);
        lemma_dot_with_unit(u, v, (n - 1) as nat, j, prev);
        if n - 1 == j {
            assert(prod == u[j]);
        } else {
            assert(is_zero(v[n - 1]));
            assert(is_zero(prod));
        }
    }
}

/// Where zero absorbs and is neutral and one is neutral, the product of a
/// matrix with the identity is the matrix.
pub proof fn lemma_matmul_with_identity<T: Scalar>(a: TensorView<T>, b: TensorView<T>, r: TensorView<T>)
    requires
        zero_absorbs::<T>(),
        zero_is_neutral::<T>(),
        one_is_neutral::<T>(),
        a.wf(),
        a.shape.len() == 2,
        is_identity(b),
        a.shape[1] == b.shape[0],
        matmul_rel(a, b, r),
    ensures
        r == a,
{
    let m = a.shape[0] as int;
    let k = a.shape[1] as int;
    lemma_size_2(a.shape);
    lemma_size_2(b.shape);
    assert(r.shape =~= a.shape);
    assert forall|p: int| 0 <= p < r.data.len() implies r.data[p] == a.data[p] by {
        lemma_unindex2(p, m, k);
        let i = p / k;
        let j = p % k;
        let row = matrix_row(a, i);
        let col = matrix_col(b, j);
        assert forall|c: int| 0 <= c < k && c != j implies is_zero(#[trigger] col[c]) by {
            lemma_index2(c, j, k, k);
            assert(col[c] == at2(b.data, k, c, j));
        }
        lemma_index2(j, j, k, k);
        assert(col[j] == at2(b.data, k, j, j));
        assert(at2(r.data, k, i, j) == r.data[p]);
        lemma_dot_with_unit(row, col, k as nat, j, r.data[p]);
        assert(row[j] == a.data[i * k + j]);
    }
    assert(r.data =~= a.data);
}

/// Where zero is neutral, a tensor to which a tensor of zeros of its shape
/// is added stays as it is.
pub proof fn lemma_add_zeros<T: Scalar>(a: TensorView<T>, b: TensorView<T>, r: TensorView<T>)
    requires
        zero_is_neutral::<T>(),
        a.wf(),
        b.wf(),
        a.shape == b.shape,
        all_zero(b),
        zip_rel(BinaryOp::Add, a, b, r),
    ensures
        r == a,
{
    lemma_zip_same_shape(BinaryOp::Add, a, b, r);
    assert forall|p: int| 0 <= p < r.data.len() implies r.data[p] == a.data[p] by {
        assert(binary_rel(BinaryOp::Add, a.data[p], b.data[p], r.data[p]));
        assert(is_zero(b.data[p]));
    }
    assert(r.data =~= a.data);
}

/// Where zero absorbs, an inner product with zeros is zero.
pub proof fn lemma_dot_with_zeros<T: Scalar>(u: Seq<T>, v: Seq<T>, n: nat, acc: T)
    requires
        zero_absorbs::<T>(),
        n <= v.len(),
        forall|k: int| 0 <= k < n ==> is_zero(#[trigger] v[k]),
        dot_acc(u, v, n, acc),
    ensures
        is_zero(acc),
    decreases n,
{
    if n > 0 {
        let (prev, prod) = choose|prev: T, prod: T|
            dot_acc(u, v, (n - 1) as nat, prev) && call_ensures(T::mul, (u[n - 1], v[n - 1]), prod)
                && #[trigger] call_ensures(T::add, (prev, prod), acc);
        lemma_dot_with_zeros(u, v, (n - 1) as nat, prev);
        assert(is_zero(v[n - 1]));
        assert(is_zero(prod));
    }
}

/// Where zero absorbs, the product of a matrix with a matrix of zeros is a
/// matrix of zeros.
pub proof fn lemma_matmul_with_zeros<T: Scalar>(a: TensorView<T>, b: TensorView<T>, r: TensorView<T>)
    requires
        zero_absorbs::<T>(),
        b.shape.len() == 2,
        a.shape[1] == b.shape[0],
        b.wf(),
        all_zero(b),
        matmul_rel(a, b, r),
    ensures
        all_zero(r),
{
    let m = a.shape[0] as int;
    let k = a.shape[1] as int;
    let n = b.shape[1] as int;
    lemma_size_2(b.shape);
    assert forall|p: int| 0 <= p < r.data.len() implies is_zero(#[trigger] r.data[p]) by {
        lemma_unindex2(p, m, n);
        let i = p / n;
        let j = p % n;
        let col = matrix_col(b, j);
        assert forall|c: int| 0 <= c < k implies is_zero(#[trigger] col[c]) by {
            lemma_index2(c, j, k, n);
            assert(col[c] == b.data[c * n + j]);
        }
        assert(at2(r.data, n, i, j) == r.data[p]);
        lemma_dot_with_zeros(matrix_row(a, i), col, k as nat, r.data[p]);
    }
}

/// `ys` is the row `xs` after root-mean-square normalisation without
/// weights: each element times the inverse root mean square of the row.
pub open spec fn normalised_row_rel<T: Scalar>(xs: Seq<T>, eps: T, ys: Seq<T>) -> bool {
    &&& ys.len() == xs.len()
    &&& exists|rr: T|
        #[trigger] inv_rms_rel(xs, eps, rr) && forall|c: int|
            0 <= c < xs.len() ==> call_ensures(T::mul, (xs[c], rr), #[trigger] ys[c])
}

/// Where one is neutral, the normalisation with weights that are all one
/// gives the normalised input without weights.
pub proof fn lemma_rmsnorm_with_ones<T: Scalar>(
    x: TensorView<T>,
    w: TensorView<T>,
    eps: T,
    r: TensorView<T>,
)
    requires
        one_is_neutral::<T>(),
        rmsnorm_ok(x.shape, w.shape),
        w.wf(),
        forall|c: int| 0 <= c < w.data.len() ==> is_one(#[trigger] w.data[c]),
        rmsnorm_rel(x, w, eps, r),
    ensures
        r.shape == x.shape,
        forall|t: int|
            0 <= t < row_count(x.data.len(), x.shape.last() as int) ==> normalised_row_rel(
                row_of(x.data, x.shape.last() as int, t),
                eps,
                #[trigger] row_of(r.data, x.shape.last() as int, t),
            ),
{
    let d = x.shape.last() as int;
    lemma_size_1(w.shape);
    assert forall|t: int| 0 <= t < row_count(x.data.len(), d) implies normalised_row_rel(
        row_of(x.data, d, t),
        eps,
        #[trigger] row_of(r.data, d, t),
    ) by {
        let xs = row_of(x.data, d, t);
        let ys = row_of(r.data, d, t);
        let len = x.data.len() as int;
        vstd::arithmetic::div_mod::lemma_fundamental_div_mod(len, d);
        vstd::arithmetic::div_mod::lemma_mod_bound(len, d);
        assert(0 <= t * d && t * d + d <= d * (len / d)) by (nonlinear_arith)
            requires
                0 <= t < len / d,
                d > 0,
        ;
        assert(xs.len() == d);
        assert(rmsnorm_row_rel(xs, w.data, eps, ys));
        let rr = choose|rr: T|
            #[trigger] inv_rms_rel(xs, eps, rr) && forall|c: int|
                0 <= c < xs.len() ==> scaled_rel(xs[c], rr, w.data[c], #[trigger] ys[c]);
        assert forall|c: int| 0 <= c < xs.len() implies call_ensures(
            T::mul,
            (xs[c], rr),
            #[trigger] ys[c],
        ) by {
            assert(scaled_rel(xs[c], rr, w.data[c], ys[c]));
            let s = choose|s: T|
                call_ensures(T::mul, (xs[c], rr), s) && call_ensures(T::mul, (s, w.data[c]), ys[c]);
            assert(is_one(w.data[c]));
            assert(ys[c] == s);
        }
        assert(inv_rms_rel(xs, eps, rr));
    }
}

} // verus!
