use vstd::prelude::*;
use vstd::arithmetic::mul::{lemma_mul_inequality, lemma_mul_nonnegative};

verus! {

/// The arithmetic that the kernels need from an element type.
///
/// The kernels fix which operations are applied to which operands and in
/// which order; what an operation yields is the element type's own business.
/// Contracts therefore speak of an element `r` as an outcome of an operation
/// on `a` and `b`, written `call_ensures(T::add, (a, b), r)`.
pub trait Scalar: Copy {
    /// The element that stands for the count `n`.
    fn from_usize(n: usize) -> Self;

    /// The element below every other one, from which a maximum is folded.
    fn neg_infinity() -> Self;

    fn add(self, rhs: Self) -> Self;

    fn sub(self, rhs: Self) -> Self;

    fn mul(self, rhs: Self) -> Self;

    fn div(self, rhs: Self) -> Self;

    fn neg(self) -> Self;

    /// The larger of the two.
    fn max(self, rhs: Self) -> Self;

    fn exp(self) -> Self;

    fn sqrt(self) -> Self;

    fn sin(self) -> Self;

    fn cos(self) -> Self;

    /// `self` raised to the power `exponent`.
    fn powf(self, exponent: Self) -> Self;
}

/// The elements of `s` at `base`, `base + step`, `base + 2 * step`, ...:
/// `n` of them.
pub open spec fn strided<T>(s: Seq<T>, base: int, step: int, n: nat) -> Seq<T> {
    Seq::new(n, |c: int| s[base + c * step])
}

/// `acc` is an outcome of adding up, from zero and in order, the products of
/// the first `n` pairs of `u` and `v`.
pub open spec fn dot_acc<T: Scalar>(u: Seq<T>, v: Seq<T>, n: nat, acc: T) -> bool
    decreases n,
{
    if n == 0 {
        call_ensures(T::from_usize, (0usize,), acc)
    } else {
        exists|prev: T, prod: T|
            dot_acc(u, v, (n - 1) as nat, prev) && call_ensures(T::mul, (u[n - 1], v[n - 1]), prod)
                && #[trigger] call_ensures(T::add, (prev, prod), acc)
    }
}

/// The inner product of `n` elements of `u`, from `u0` on in steps of `us`,
/// with `n` elements of `v`, from `v0` on in steps of `vs`.
pub(crate) fn dot_strided<T: Scalar>(
    u: &Vec<T>,
    u0: usize,
    us: usize,
    v: &Vec<T>,
    v0: usize,
    vs: usize,
    n: usize,
) -> (r: T)
    requires
        n > 0 ==> u0 + (n - 1) * us < u@.len() && v0 + (n - 1) * vs < v@.len(),
    ensures
        dot_acc(strided(u@, u0 as int, us as int, n as nat), strided(v@, v0 as int, vs as int, n as nat), n as nat, r),
{
    let ghost su = strided(u@, u0 as int, us as int, n as nat);
    let ghost sv = strided(v@, v0 as int, vs as int, n as nat);
    let ulen = u.len();
    let vlen = v.len();
    let mut acc = T::from_usize(0);
    let mut c: usize = 0;
    while c < n
        invariant
            c <= n,
            ulen == u@.len(),
            vlen == v@.len(),
            n > 0 ==> u0 + (n - 1) * us < u@.len() && v0 + (n - 1) * vs < v@.len(),
            su == strided(u@, u0 as int, us as int, n as nat),
            sv == strided(v@, v0 as int, vs as int, n as nat),
            dot_acc(su, sv, c as nat, acc),
        decreases n - c,
    {
        proof {
            lemma_mul_inequality(c as int, n - 1, us as int);
            lemma_mul_inequality(c as int, n - 1, vs as int);
            lemma_mul_nonnegative(c as int, us as int);
            lemma_mul_nonnegative(c as int, vs as int);
        }
        let x = u[u0 + c * us];
        let y = v[v0 + c * vs];
        let prod = x.mul(y);
        let ghost prev = acc;
        acc = acc.add(prod);
        c += 1;
        proof {
            assert(su[c - 1] == x);
            assert(sv[c - 1] == y);
            assert(dot_acc(su, sv, (c - 1) as nat, prev));
            assert(call_ensures(T::add, (prev, prod), acc));
        }
    }
    acc
}

} // verus!
