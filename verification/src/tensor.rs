use vstd::prelude::*;
use vstd::arithmetic::mul::{lemma_mul_inequality, lemma_mul_nonnegative};
use crate::error::TensorError;
use crate::scalar::strided;
use crate::shape::{checked_size, shape_size};

verus! {

/// What a tensor is in contracts: its dimensions and its elements in
/// row-major order.
pub struct TensorView<T> {
    pub shape: Seq<usize>,
    pub data: Seq<T>,
}

impl<T> TensorView<T> {
    /// There are as many elements as the dimensions call for.
    pub open spec fn wf(self) -> bool {
        self.data.len() == shape_size(self.shape)
    }
}

/// A dense n-dimensional array: its dimensions, and its elements in
/// row-major order.
#[derive(Debug)]
pub struct Tensor<T> {
    shape: Vec<usize>,
    data: Vec<T>,
}

impl<T> View for Tensor<T> {
    type V = TensorView<T>;

    closed spec fn view(&self) -> TensorView<T> {
        TensorView { shape: self.shape@, data: self.data@ }
    }
}

/// The `t`-th run of `d` elements of `s`.
pub open spec fn row_of<T>(s: Seq<T>, d: int, t: int) -> Seq<T> {
    s.subrange(t * d, t * d + d)
}

/// The number of runs of `d` elements among `len` elements: none where a run
/// holds nothing.
pub open spec fn row_count(len: nat, d: int) -> int {
    if d <= 0 {
        0
    } else {
        len as int / d
    }
}

/// Appending one run leaves the runs before it as they were.
pub proof fn lemma_rows_append<T>(before: Seq<T>, run: Seq<T>, d: int, t: int)
    requires
        0 <= t,
        0 <= d,
        before.len() == t * d,
        run.len() == d,
    ensures
        (before + run).len() == (t + 1) * d,
        row_of(before + run, d, t) == run,
        forall|u: int| 0 <= u < t ==> #[trigger] row_of(before + run, d, u) == row_of(before, d, u),
{
    assert((t + 1) * d == t * d + d) by (nonlinear_arith);
    assert(row_of(before + run, d, t) =~= run);
    assert forall|u: int| 0 <= u < t implies #[trigger] row_of(before + run, d, u) == row_of(
        before,
        d,
        u,
    ) by {
        assert(0 <= u * d && u * d + d <= t * d) by (nonlinear_arith)
            requires
                0 <= u < t,
                0 <= d,
        ;
        assert(row_of(before + run, d, u) =~= row_of(before, d, u));
    }
}

/// The `n` elements of `v` from `base` on, in steps of `step`.
pub(crate) fn copy_strided<T: Copy>(v: &Vec<T>, base: usize, step: usize, n: usize) -> (r: Vec<T>)
    requires
        n > 0 ==> base + (n - 1) * step < v@.len(),
    ensures
        r@ == strided(v@, base as int, step as int, n as nat),
{
    let vlen = v.len();
    let mut r: Vec<T> = Vec::new();
    let mut c: usize = 0;
    while c < n
        invariant
            c <= n,
            vlen == v@.len(),
            n > 0 ==> base + (n - 1) * step < v@.len(),
            r@.len() == c,
            forall|k: int| 0 <= k < c ==> r@[k] == v@[base + k * step],
        decreases n - c,
    {
        proof {
            lemma_mul_inequality(c as int, n - 1, step as int);
            lemma_mul_nonnegative(c as int, step as int);
        }
        r.push(v[base + c * step]);
        c += 1;
    }
    assert(r@ =~= strided(v@, base as int, step as int, n as nat));
    r
}

/// Appends the elements of `run` to `out`.
pub(crate) fn append_run<T: Copy>(out: &mut Vec<T>, run: &Vec<T>)
    ensures
        final(out)@ == old(out)@ + run@,
{
    let mut i: usize = 0;
    while i < run.len()
        invariant
            i <= run.len(),
            out@ == old(out)@ + run@.take(i as int),
        decreases run.len() - i,
    {
        out.push(run[i]);
        i += 1;
        assert(out@ =~= old(out)@ + run@.take(i as int));
    }
    assert(run@.take(run.len() as int) =~= run@);
}

/// A copy of `v`.
pub(crate) fn copy_vec<T: Copy>(v: &Vec<T>) -> (r: Vec<T>)
    ensures
        r@ == v@,
{
    let mut r: Vec<T> = Vec::new();
    let mut i: usize = 0;
    while i < v.len()
        invariant
            i <= v.len(),
            r@ == v@.take(i as int),
        decreases v.len() - i,
    {
        r.push(v[i]);
        i += 1;
        assert(r@ =~= v@.take(i as int));
    }
    assert(v@.take(v.len() as int) =~= v@);
    r
}

impl<T> Tensor<T> {
    #[verifier::type_invariant]
    spec fn inv(&self) -> bool {
        self.data@.len() == shape_size(self.shape@)
    }

    /// A tensor of the dimensions `shape` over the elements `data`, given in
    /// row-major order. It is refused where `data` does not hold exactly as
    /// many elements as `shape` calls for.
    pub fn new(shape: Vec<usize>, data: Vec<T>) -> (r: Result<Tensor<T>, TensorError>)
        ensures
            match r {
                Ok(t) => t@.shape == shape@ && t@.data == data@ && t@.wf(),
                Err(e) => e == TensorError::ShapeMismatch && data@.len() != shape_size(shape@),
            },
    {
        let len = data.len();
        match checked_size(&shape) {
            Some(n) => {
                if n == len {
                    Ok(Tensor { shape, data })
                } else {
                    Err(TensorError::ShapeMismatch)
                }
            },
            None => Err(TensorError::ShapeMismatch),
        }
    }

    /// A tensor from dimensions and elements that are known to fit.
    pub(crate) fn from_parts(shape: Vec<usize>, data: Vec<T>) -> (r: Tensor<T>)
        requires
            data@.len() == shape_size(shape@),
        ensures
            r@.shape == shape@,
            r@.data == data@,
            r@.wf(),
    {
        Tensor { shape, data }
    }

    /// The dimensions.
    pub fn shape(&self) -> (r: &Vec<usize>)
        ensures
            r@ == self@.shape,
            self@.wf(),
    {
        proof {
            use_type_invariant(self);
        }
        &self.shape
    }

    /// The elements in row-major order.
    pub fn data(&self) -> (r: &Vec<T>)
        ensures
            r@ == self@.data,
            self@.wf(),
    {
        proof {
            use_type_invariant(self);
        }
        &self.data
    }
}

} // verus!
