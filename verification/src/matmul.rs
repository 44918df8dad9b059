use vstd::prelude::*;
use vstd::arithmetic::mul::lemma_mul_is_commutative;
use crate::error::TensorError;
use crate::scalar::{dot_acc, dot_strided, strided, Scalar};
use crate::layout::{at2, at3, shape2, shape3};
use crate::shape::{
    checked_size, lemma_index2, lemma_index3, lemma_size_2, lemma_size_3, lemma_unindex2,
    lemma_unindex3,
};
use crate::tensor::{Tensor, TensorView};

verus! {

/// The dimensions `a` and `b` can be multiplied as matrices: both are of
/// rank 2, the columns of `a` are as many as the rows of `b`, and the
/// product's element count fits in `usize`.
pub open spec fn matmul_ok(a: Seq<usize>, b: Seq<usize>) -> bool {
    &&& a.len() == 2
    &&& b.len() == 2
    &&& a[1] == b[0]
    &&& a[0] * b[1] <= usize::MAX
}

/// The dimensions of the matrix product.
pub open spec fn matmul_shape(a: Seq<usize>, b: Seq<usize>) -> Seq<usize> {
    seq![a[0], b[1]]
}

/// Row `i` of a matrix.
pub open spec fn matrix_row<T>(m: TensorView<T>, i: int) -> Seq<T> {
    strided(m.data, i * m.shape[1], 1, m.shape[1] as nat)
}

/// Column `j` of a matrix.
pub open spec fn matrix_col<T>(m: TensorView<T>, j: int) -> Seq<T> {
    strided(m.data, j, m.shape[1] as int, m.shape[0] as nat)
}

/// `r` is a matrix product of `a` and `b`: its element in row `i` and column
/// `j` is an inner product of row `i` of `a` with column `j` of `b`.
pub open spec fn matmul_rel<T: Scalar>(a: TensorView<T>, b: TensorView<T>, r: TensorView<T>) -> bool {
    let m = a.shape[0] as int;
    let n = b.shape[1] as int;
    &&& r.shape == matmul_shape(a.shape, b.shape)
    &&& r.data.len() == m * n
    &&& forall|i: int, j: int|
        0 <= i < m && 0 <= j < n ==> dot_acc(
            matrix_row(a, i),
            matrix_col(b, j),
            a.shape[1] as nat,
            #[trigger] at2(r.data, n, i, j),
        )
}

/// The dimensions `a` and `b` can be multiplied as stacks of matrices: both
/// are of rank 3 and hold as many matrices, the columns of those of `a` are
/// as many as the rows of those of `b`, and the element count of the result
/// fits in `usize`.
pub open spec fn batched_matmul_ok(a: Seq<usize>, b: Seq<usize>) -> bool {
    &&& a.len() == 3
    &&& b.len() == 3
    &&& a[0] == b[0]
    &&& a[2] == b[1]
    &&& a[0] * a[1] * b[2] <= usize::MAX
}

/// `r` holds, for each matrix of `a`, its product with the matrix of `b` at
/// the same place.
pub open spec fn batched_matmul_rel<T: Scalar>(
    a: TensorView<T>,
    b: TensorView<T>,
    r: TensorView<T>,
) -> bool {
    let n = a.shape[0] as int;
    let m = a.shape[1] as int;
    let k = a.shape[2] as int;
    let q = b.shape[2] as int;
    &&& r.shape == seq![a.shape[0], a.shape[1], b.shape[2]]
    &&& r.data.len() == n * m * q
    &&& forall|h: int, i: int, j: int|
        0 <= h < n && 0 <= i < m && 0 <= j < q ==> dot_acc(
            strided(a.data, (h * m + i) * k, 1, k as nat),
            strided(b.data, (h * k) * q + j, q, k as nat),
            k as nat,
            #[trigger] at3(r.data, m, q, h, i, j),
        )
}

impl<T: Scalar> Tensor<T> {
    /// The products of the matrices of two tensors of rank 3, pair by pair.
    pub fn batched_matmul(&self, other: &Tensor<T>) -> (r: Result<Tensor<T>, TensorError>)
        ensures
            match r {
                Ok(t) => batched_matmul_ok(self@.shape, other@.shape) && batched_matmul_rel(
                    self@,
                    other@,
                    t@,
                ) && t@.wf(),
                Err(e) => e == TensorError::ShapeMismatch && !batched_matmul_ok(
                    self@.shape,
                    other@.shape,
                ),
            },
    {
        let ash = self.shape();
        let bsh = other.shape();
        if ash.len() != 3 || bsh.len() != 3 {
            return Err(TensorError::ShapeMismatch);
        }
        if ash[0] != bsh[0] || ash[2] != bsh[1] {
            return Err(TensorError::ShapeMismatch);
        }
        let n = ash[0];
        let m = ash[1];
        let k = ash[2];
        let q = bsh[2];
        let shape = shape3(n, m, q);
        let total = match checked_size(&shape) {
            Some(t) => t,
            None => {
                return Err(TensorError::ShapeMismatch);
            },
        };
        let a = self.data();
        let b = other.data();
        let alen = a.len();
        let blen = b.len();
        proof {
            lemma_size_3(ash@);
            lemma_size_3(bsh@);
        }
        let mut out: Vec<T> = Vec::new();
        let mut p: usize = 0;
        while p < total
            invariant
                p <= total,
                total == n * m * q,
                alen == a@.len(),
                blen == b@.len(),
                a@.len() == n * m * k,
                b@.len() == n * k * q,
                out@.len() == p,
                forall|u: int|
                    0 <= u < p ==> dot_acc(
                        strided(a@, (u / (q as int)) * k, 1, k as nat),
                        strided(b@, (((u / (q as int)) / (m as int)) * k) * q + u % (q as int), q as int, k as nat),
                        k as nat,
                        #[trigger] out@[u],
                    ),
            decreases total - p,
        {
            proof {
                lemma_unindex3(p as int, n as int, m as int, q as int);
            }
            let row = p / q;
            let h = row / m;
            let j = p % q;
            let ghost i = row as int % m as int;
            proof {
                vstd::arithmetic::div_mod::lemma_fundamental_div_mod(row as int, m as int);
                lemma_mul_is_commutative(m as int, h as int);
                assert(row == h * m + i);
                if k > 0 {
                    lemma_index3(h as int, i, k - 1, n as int, m as int, k as int);
                    lemma_index3(h as int, k - 1, j as int, n as int, k as int, q as int);
                    lemma_index3(h as int, i, 0, n as int, m as int, k as int);
                    lemma_index3(h as int, 0, j as int, n as int, k as int, q as int);
                    assert((h * k + (k - 1)) * q + j == h * k * q + j + (k - 1) * q) by (nonlinear_arith);
                    assert(h * k * q >= 0 && h * k >= 0 && h * k <= h * k * q) by (nonlinear_arith)
                        requires
                            h >= 0,
                            k >= 0,
                            q > 0,
                    ;
                }
            }
            let abase = if k == 0 {
                0
            } else {
                row * k
            };
            let bbase = if k == 0 {
                0
            } else {
                h * k * q + j
            };
            let x = dot_strided(a, abase, 1, b, bbase, q, k);
            proof {
                assert(strided(a@, abase as int, 1, k as nat) =~= strided(a@, row * k, 1, k as nat));
                assert(strided(b@, bbase as int, q as int, k as nat) =~= strided(
                    b@,
                    (h * k) * q + j,
                    q as int,
                    k as nat,
                ));
            }
            out.push(x);
            p += 1;
        }
        proof {
            assert forall|h: int, i: int, j: int| 0 <= h < n && 0 <= i < m && 0 <= j < q implies dot_acc(
                strided(a@, (h * m + i) * k, 1, k as nat),
                strided(b@, (h * k) * q + j, q as int, k as nat),
                k as nat,
                #[trigger] at3(out@, m as int, q as int, h, i, j),
            ) by {
                lemma_index3(h, i, j, n as int, m as int, q as int);
            }
        }
        Ok(Tensor::from_parts(shape, out))
    }

    /// The matrix product of two tensors of rank 2.
    pub fn matmul(&self, other: &Tensor<T>) -> (r: Result<Tensor<T>, TensorError>)
        ensures
            match r {
                Ok(t) => matmul_ok(self@.shape, other@.shape) && matmul_rel(self@, other@, t@) && t@.wf(),
                Err(e) => e == TensorError::ShapeMismatch && !matmul_ok(self@.shape, other@.shape),
            },
    {
        let ash = self.shape();
        let bsh = other.shape();
        if ash.len() != 2 || bsh.len() != 2 {
            return Err(TensorError::ShapeMismatch);
        }
        if ash[1] != bsh[0] {
            return Err(TensorError::ShapeMismatch);
        }
        let m = ash[0];
        let k = ash[1];
        let n = bsh[1];
        let total = match m.checked_mul(n) {
            Some(t) => t,
            None => {
                return Err(TensorError::ShapeMismatch);
            },
        };
        let a = self.data();
        let b = other.data();
        proof {
            lemma_size_2(ash@);
            lemma_size_2(bsh@);
        }
        let alen = a.len();
        let blen = b.len();
        let mut out: Vec<T> = Vec::new();
        let mut p: usize = 0;
        while p < total
            invariant
                p <= total,
                alen == a@.len(),
                blen == b@.len(),
                total == m * n,
                a@.len() == m * k,
                b@.len() == k * n,
                a@ == self@.data,
                b@ == other@.data,
                out@.len() == p,
                forall|q: int|
                    0 <= q < p ==> dot_acc(
                        strided(a@, (q / (n as int)) * k, 1, k as nat),
                        strided(b@, q % (n as int), n as int, k as nat),
                        k as nat,
                        #[trigger] out@[q],
                    ),
            decreases total - p,
        {
            proof {
                lemma_unindex2(p as int, m as int, n as int);
            }
            let i = p / n;
            let j = p % n;
            proof {
                if k > 0 {
                    lemma_index2(i as int, k - 1, m as int, k as int);
                    lemma_index2(k - 1, j as int, k as int, n as int);
                }
                assert(i * k <= m * k) by (nonlinear_arith)
                    requires
                        i < m,
                        k >= 0,
                ;
            }
            let x = dot_strided(a, i * k, 1, b, j, n, k);
            out.push(x);
            p += 1;
        }
        proof {
            assert forall|i: int, j: int| 0 <= i < m && 0 <= j < n implies dot_acc(
                matrix_row(self@, i),
                matrix_col(other@, j),
                k as nat,
                #[trigger] at2(out@, n as int, i, j),
            ) by {
                lemma_index2(i, j, m as int, n as int);
            }
        }
        Ok(Tensor::from_parts(shape2(m, n), out))
    }
}

} // verus!
