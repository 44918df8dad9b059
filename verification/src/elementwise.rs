use vstd::prelude::*;
use crate::broadcasting::{
    broadcast_compatible, broadcast_offset, broadcast_shape, broadcast_shapes, broadcast_src,
    lemma_broadcast_same, lemma_broadcast_src_same, lemma_broadcast_stretches,
};
use crate::error::TensorError;
use crate::scalar::Scalar;
use crate::shape::{checked_size, shape_size};
use crate::tensor::{copy_vec, Tensor, TensorView};

verus! {

/// The operations that combine two tensors element by element.
#[derive(Clone, Copy, Debug)]
pub enum BinaryOp {
    Add,
    Mul,
}

/// `r` is an outcome of the operation on `x` and `y`.
pub open spec fn binary_rel<T: Scalar>(op: BinaryOp, x: T, y: T, r: T) -> bool {
    match op {
        BinaryOp::Add => call_ensures(T::add, (x, y), r),
        BinaryOp::Mul => call_ensures(T::mul, (x, y), r),
    }
}

/// The shapes `a` and `b` can be combined element by element: they go
/// together, and the element count of their common shape fits in `usize`.
pub open spec fn broadcast_ok(a: Seq<usize>, b: Seq<usize>) -> bool {
    broadcast_compatible(a, b) && shape_size(broadcast_shape(a, b)) <= usize::MAX
}

/// `r` combines `a` and `b` element by element: it has their common shape,
/// and each of its elements is an outcome of the operation on the elements
/// of `a` and `b` that are stretched to its place.
pub open spec fn zip_rel<T: Scalar>(
    op: BinaryOp,
    a: TensorView<T>,
    b: TensorView<T>,
    r: TensorView<T>,
) -> bool {
    &&& r.shape == broadcast_shape(a.shape, b.shape)
    &&& r.data.len() == shape_size(r.shape)
    &&& forall|p: int|
        0 <= p < r.data.len() ==> binary_rel(
            op,
            a.data[broadcast_src(a.shape, r.shape, p)],
            b.data[broadcast_src(b.shape, r.shape, p)],
            #[trigger] r.data[p],
        )
}

/// `y` is an outcome of `x / (1 + exp(-x))`.
pub open spec fn silu_rel<T: Scalar>(x: T, y: T) -> bool {
    exists|ng: T, e: T, one: T, den: T|
        #[trigger] call_ensures(T::neg, (x,), ng) && call_ensures(T::exp, (ng,), e) && call_ensures(
            T::from_usize,
            (1usize,),
            one,
        ) && #[trigger] call_ensures(T::add, (one, e), den) && call_ensures(T::div, (x, den), y)
}

/// `r` has the dimensions of `x`, and each of its elements is the SiLU of
/// the element of `x` at its place.
pub open spec fn map_silu_rel<T: Scalar>(x: TensorView<T>, r: TensorView<T>) -> bool {
    &&& r.shape == x.shape
    &&& r.data.len() == x.data.len()
    &&& forall|p: int| 0 <= p < r.data.len() ==> silu_rel(x.data[p], #[trigger] r.data[p])
}

/// `r` has the dimensions of `x`, and each of its elements is an outcome of
/// dividing the element of `x` at its place by `s`.
pub open spec fn div_scalar_rel<T: Scalar>(x: TensorView<T>, s: T, r: TensorView<T>) -> bool {
    &&& r.shape == x.shape
    &&& r.data.len() == x.data.len()
    &&& forall|p: int|
        0 <= p < r.data.len() ==> call_ensures(T::div, (x.data[p], s), #[trigger] r.data[p])
}

/// A shape goes together with itself: two tensors of one shape, which a
/// tensor can have, can always be combined, and the result has that shape.
pub proof fn lemma_same_shape_combines(shape: Seq<usize>)
    requires
        shape_size(shape) <= usize::MAX,
    ensures
        broadcast_ok(shape, shape),
        broadcast_shape(shape, shape) == shape,
{
    lemma_broadcast_same(shape);
}

/// Tensors of one shape are combined place by place: the result has their
/// shape, and each of its elements is an outcome of the operation on the
/// elements of the two at the same place.
pub proof fn lemma_zip_same_shape<T: Scalar>(
    op: BinaryOp,
    a: TensorView<T>,
    b: TensorView<T>,
    r: TensorView<T>,
)
    requires
        a.shape == b.shape,
        zip_rel(op, a, b, r),
    ensures
        r.shape == a.shape,
        forall|p: int|
            0 <= p < r.data.len() ==> binary_rel(op, a.data[p], b.data[p], #[trigger] r.data[p]),
{
    lemma_broadcast_same(a.shape);
    assert forall|p: int| 0 <= p < r.data.len() implies binary_rel(
        op,
        a.data[p],
        b.data[p],
        #[trigger] r.data[p],
    ) by {
        lemma_broadcast_src_same(a.shape, p);
    }
}

fn apply<T: Scalar>(op: BinaryOp, x: T, y: T) -> (r: T)
    ensures
        binary_rel(op, x, y, r),
{
    match op {
        BinaryOp::Add => x.add(y),
        BinaryOp::Mul => x.mul(y),
    }
}

impl<T: Scalar> Tensor<T> {
    /// Combines two tensors element by element, each stretched to their
    /// common shape.
    pub fn zip(&self, other: &Tensor<T>, op: BinaryOp) -> (r: Result<Tensor<T>, TensorError>)
        ensures
            match r {
                Ok(t) => broadcast_ok(self@.shape, other@.shape) && zip_rel(op, self@, other@, t@)
                    && t@.wf(),
                Err(e) => e == TensorError::ShapeMismatch && !broadcast_ok(self@.shape, other@.shape),
            },
    {
        let ash = self.shape();
        let bsh = other.shape();
        let shape = match broadcast_shapes(ash, bsh) {
            Some(s) => s,
            None => {
                return Err(TensorError::ShapeMismatch);
            },
        };
        let total = match checked_size(&shape) {
            Some(n) => n,
            None => {
                return Err(TensorError::ShapeMismatch);
            },
        };
        let a = self.data();
        let b = other.data();
        let al = ash.len();
        let bl = bsh.len();
        let sl = shape.len();
        let alen = a.len();
        let blen = b.len();
        proof {
            lemma_broadcast_stretches(ash@, bsh@);
            assert(ash@.take(al as int) =~= ash@);
            assert(bsh@.take(bl as int) =~= bsh@);
            assert(shape@.take(sl as int) =~= shape@);
        }
        let mut out: Vec<T> = Vec::new();
        let mut p: usize = 0;
        while p < total
            invariant
                p <= total,
                total == shape_size(shape@),
                al == ash@.len(),
                bl == bsh@.len(),
                sl == shape@.len(),
                alen == a@.len(),
                blen == b@.len(),
                a@.len() == shape_size(ash@),
                b@.len() == shape_size(bsh@),
                ash@.take(al as int) == ash@,
                bsh@.take(bl as int) == bsh@,
                shape@.take(sl as int) == shape@,
                crate::broadcasting::stretches_to(ash@, shape@),
                crate::broadcasting::stretches_to(bsh@, shape@),
                out@.len() == p,
                forall|q: int|
                    0 <= q < p ==> binary_rel(
                        op,
                        a@[broadcast_src(ash@, shape@, q)],
                        b@[broadcast_src(bsh@, shape@, q)],
                        #[trigger] out@[q],
                    ),
            decreases total - p,
        {
            let i = broadcast_offset(ash, &shape, al, sl, p);
            let j = broadcast_offset(bsh, &shape, bl, sl, p);
            out.push(apply(op, a[i], b[j]));
            p += 1;
        }
        Ok(Tensor::from_parts(shape, out))
    }

    /// The sum of two tensors, element by element, with broadcasting.
    pub fn add(&self, other: &Tensor<T>) -> (r: Result<Tensor<T>, TensorError>)
        ensures
            match r {
                Ok(t) => broadcast_ok(self@.shape, other@.shape) && zip_rel(
                    BinaryOp::Add,
                    self@,
                    other@,
                    t@,
                ) && t@.wf(),
                Err(e) => e == TensorError::ShapeMismatch && !broadcast_ok(self@.shape, other@.shape),
            },
    {
        self.zip(other, BinaryOp::Add)
    }

    /// The product of two tensors, element by element, with broadcasting.
    pub fn mul(&self, other: &Tensor<T>) -> (r: Result<Tensor<T>, TensorError>)
        ensures
            match r {
                Ok(t) => broadcast_ok(self@.shape, other@.shape) && zip_rel(
                    BinaryOp::Mul,
                    self@,
                    other@,
                    t@,
                ) && t@.wf(),
                Err(e) => e == TensorError::ShapeMismatch && !broadcast_ok(self@.shape, other@.shape),
            },
    {
        self.zip(other, BinaryOp::Mul)
    }

    /// The SiLU activation of every element: `x / (1 + exp(-x))`.
    pub fn silu(&self) -> (r: Tensor<T>)
        ensures
            map_silu_rel(self@, r@),
            r@.wf(),
    {
        let shape = self.shape();
        let data = self.data();
        let total = data.len();
        let mut out: Vec<T> = Vec::new();
        let mut p: usize = 0;
        while p < total
            invariant
                p <= total,
                total == data@.len(),
                out@.len() == p,
                forall|q: int| 0 <= q < p ==> silu_rel(data@[q], #[trigger] out@[q]),
            decreases total - p,
        {
            let x = data[p];
            let ng = x.neg();
            let e = ng.exp();
            let one = T::from_usize(1);
            let den = one.add(e);
            let y = x.div(den);
            proof {
                assert(call_ensures(T::neg, (x,), ng) && call_ensures(T::exp, (ng,), e) && call_ensures(
                    T::from_usize,
                    (1usize,),
                    one,
                ) && call_ensures(T::add, (one, e), den) && call_ensures(T::div, (x, den), y));
                assert(silu_rel(x, y));
            }
            out.push(y);
            p += 1;
        }
        Tensor::from_parts(copy_vec(shape), out)
    }

    /// Every element divided by `s`.
    pub fn div_scalar(&self, s: T) -> (r: Tensor<T>)
        ensures
            div_scalar_rel(self@, s, r@),
            r@.wf(),
    {
        let shape = self.shape();
        let data = self.data();
        let total = data.len();
        let mut out: Vec<T> = Vec::new();
        let mut p: usize = 0;
        while p < total
            invariant
                p <= total,
                total == data@.len(),
                out@.len() == p,
                forall|q: int| 0 <= q < p ==> call_ensures(T::div, (data@[q], s), #[trigger] out@[q]),
            decreases total - p,
        {
            out.push(data[p].div(s));
            p += 1;
        }
        Tensor::from_parts(copy_vec(shape), out)
    }
}

} // verus!
