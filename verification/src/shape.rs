use vstd::prelude::*;
use vstd::arithmetic::div_mod::*;
use vstd::arithmetic::mul::*;

verus! {

/// The number of elements of a dense array with the dimensions `s`: their
/// product, which is 1 for no dimensions at all.
pub open spec fn shape_size(s: Seq<usize>) -> nat
    decreases s.len(),
{
    if s.len() == 0 {
        1
    } else {
        shape_size(s.drop_last()) * (s.last() as nat)
    }
}

/// Some dimension of `s` is zero.
pub open spec fn has_zero(s: Seq<usize>) -> bool {
    exists|i: int| 0 <= i < s.len() && s[i] == 0
}

/// The element count of the first `i + 1` dimensions is that of the first
/// `i`, times the next dimension.
pub proof fn lemma_size_take(s: Seq<usize>, i: int)
    requires
        0 <= i < s.len(),
    ensures
        shape_size(s.take(i + 1)) == shape_size(s.take(i)) * (s[i] as nat),
{
    assert(s.take(i + 1).drop_last() =~= s.take(i));
}

/// A shape with a zero dimension holds no element.
pub proof fn lemma_size_zero(s: Seq<usize>)
    requires
        has_zero(s),
    ensures
        shape_size(s) == 0,
    decreases s.len(),
{
    let i = choose|i: int| 0 <= i < s.len() && s[i] == 0;
    if i == s.len() - 1 {
        lemma_mul_basics(shape_size(s.drop_last()) as int);
    } else {
        assert(s.drop_last()[i] == 0);
        lemma_size_zero(s.drop_last());
        lemma_mul_basics(s.last() as int);
    }
}

/// A shape without a zero dimension holds at least as many elements as each
/// of its prefixes, and at least one.
pub proof fn lemma_size_prefix(s: Seq<usize>, i: int)
    requires
        0 <= i <= s.len(),
        !has_zero(s),
    ensures
        1 <= shape_size(s.take(i)) <= shape_size(s),
    decreases s.len() - i,
{
    if i == s.len() {
        assert(s.take(i) =~= s);
        lemma_size_positive(s);
    } else {
        lemma_size_prefix(s, i + 1);
        lemma_size_take(s, i);
        assert(s[i] >= 1);
        lemma_size_positive_take(s, i);
        lemma_mul_inequality(1, s[i] as int, shape_size(s.take(i)) as int);
    }
}

proof fn lemma_size_positive_take(s: Seq<usize>, i: int)
    requires
        0 <= i <= s.len(),
        !has_zero(s),
    ensures
        1 <= shape_size(s.take(i)),
{
    assert forall|j: int| 0 <= j < s.take(i).len() implies s.take(i)[j] != 0 by {
        assert(s.take(i)[j] == s[j]);
    }
    lemma_size_positive(s.take(i));
}

proof fn lemma_size_positive(s: Seq<usize>)
    requires
        !has_zero(s),
    ensures
        1 <= shape_size(s),
    decreases s.len(),
{
    if s.len() > 0 {
        assert forall|j: int| 0 <= j < s.drop_last().len() implies s.drop_last()[j] != 0 by {
            assert(s.drop_last()[j] == s[j]);
        }
        lemma_size_positive(s.drop_last());
        assert(s[s.len() - 1] != 0);
        lemma_mul_strictly_positive(shape_size(s.drop_last()) as int, s.last() as int);
    }
}

/// A vector holds as many elements as its one dimension says.
pub proof fn lemma_size_1(s: Seq<usize>)
    requires
        s.len() == 1,
    ensures
        shape_size(s) == s[0],
{
    assert(s.drop_last().len() == 0);
    assert(shape_size(s.drop_last()) == 1);
    assert(shape_size(s) == 1 * (s[0] as nat));
}

/// A matrix holds rows times columns elements.
pub proof fn lemma_size_2(s: Seq<usize>)
    requires
        s.len() == 2,
    ensures
        shape_size(s) == s[0] * s[1],
{
    lemma_size_1(s.drop_last());
}

/// A tensor of rank 3 holds blocks times rows times columns elements.
pub proof fn lemma_size_3(s: Seq<usize>)
    requires
        s.len() == 3,
    ensures
        shape_size(s) == s[0] * s[1] * s[2],
{
    lemma_size_2(s.drop_last());
}

/// Row `i`, column `j` of `m` rows of `n` elements lies at `i * n + j`, and
/// nowhere else.
pub proof fn lemma_index2(i: int, j: int, m: int, n: int)
    requires
        0 <= i < m,
        0 <= j < n,
    ensures
        0 <= i * n + j < m * n,
        (i * n + j) / n == i,
        (i * n + j) % n == j,
{
    assert(0 <= i * n + j < m * n) by (nonlinear_arith)
        requires
            0 <= i < m,
            0 <= j < n,
    ;
    lemma_fundamental_div_mod_converse(i * n + j, n, i, j);
}

/// The row and the column of the element at `p` among `m` rows of `n`
/// elements.
pub proof fn lemma_unindex2(p: int, m: int, n: int)
    requires
        0 <= p < m * n,
        0 <= m,
        0 <= n,
    ensures
        0 < n,
        0 <= p / n < m,
        0 <= p % n < n,
        p == (p / n) * n + p % n,
{
    assert(0 < n) by (nonlinear_arith)
        requires
            0 <= p < m * n,
            0 <= m,
            0 <= n,
    ;
    lemma_fundamental_div_mod(p, n);
    lemma_mod_bound(p, n);
    lemma_div_pos_is_pos(p, n);
    lemma_mul_is_commutative(m, n);
    lemma_multiply_divide_lt(p, n, m);
    lemma_mul_is_commutative(n, p / n);
}

/// Block `a`, row `b`, column `c` of `na` blocks of `nb` rows of `nc`
/// elements lies at `(a * nb + b) * nc + c`, and nowhere else.
pub proof fn lemma_index3(a: int, b: int, c: int, na: int, nb: int, nc: int)
    requires
        0 <= a < na,
        0 <= b < nb,
        0 <= c < nc,
    ensures
        0 <= (a * nb + b) * nc + c < na * nb * nc,
        ((a * nb + b) * nc + c) % nc == c,
        ((a * nb + b) * nc + c) / nc == a * nb + b,
        (((a * nb + b) * nc + c) / nc) % nb == b,
        (((a * nb + b) * nc + c) / nc) / nb == a,
{
    lemma_index2(a, b, na, nb);
    lemma_index2(a * nb + b, c, na * nb, nc);
}

/// The block, the row and the column of the element at `p` among `na`
/// blocks of `nb` rows of `nc` elements.
pub proof fn lemma_unindex3(p: int, na: int, nb: int, nc: int)
    requires
        0 <= p < na * nb * nc,
        0 <= na,
        0 <= nb,
        0 <= nc,
    ensures
        0 < nb,
        0 < nc,
        0 <= (p / nc) / nb < na,
        0 <= (p / nc) % nb < nb,
        0 <= p % nc < nc,
        p == (((p / nc) / nb) * nb + (p / nc) % nb) * nc + p % nc,
{
    lemma_mul_nonnegative(na, nb);
    lemma_unindex2(p, na * nb, nc);
    lemma_unindex2(p / nc, na, nb);
}

/// The element count of a shape is that of its first `k` dimensions times
/// that of the others.
pub proof fn lemma_size_split(s: Seq<usize>, k: int)
    requires
        0 <= k <= s.len(),
    ensures
        shape_size(s) == shape_size(s.take(k)) * shape_size(s.skip(k)),
    decreases s.len(),
{
    if k == s.len() {
        assert(s.take(k) =~= s);
        assert(s.skip(k).len() == 0);
        lemma_mul_basics(shape_size(s) as int);
    } else {
        let t = s.drop_last();
        lemma_size_split(t, k);
        assert(t.take(k) =~= s.take(k));
        assert(t.skip(k) =~= s.skip(k).drop_last());
        assert(s.skip(k).last() == s.last());
        lemma_mul_is_associative(
            shape_size(s.take(k)) as int,
            shape_size(t.skip(k)) as int,
            s.last() as int,
        );
    }
}

/// A shape that holds an element has no zero dimension.
pub proof fn lemma_size_nonzero(s: Seq<usize>)
    requires
        shape_size(s) > 0,
    ensures
        !has_zero(s),
{
    if has_zero(s) {
        lemma_size_zero(s);
    }
}

/// The element count of `shape`, or `None` where it does not fit in `usize`.
pub fn checked_size(shape: &Vec<usize>) -> (r: Option<usize>)
    ensures
        match r {
            Some(n) => n == shape_size(shape@),
            None => shape_size(shape@) > usize::MAX,
        },
{
    let mut j: usize = 0;
    while j < shape.len()
        invariant
            j <= shape.len(),
            forall|k: int| 0 <= k < j ==> shape@[k] != 0,
        decreases shape.len() - j,
    {
        if shape[j] == 0 {
            proof {
                lemma_size_zero(shape@);
            }
            return Some(0);
        }
        j += 1;
    }
    let mut acc: usize = 1;
    let mut i: usize = 0;
    while i < shape.len()
        invariant
            i <= shape.len(),
            !has_zero(shape@),
            acc == shape_size(shape@.take(i as int)),
        decreases shape.len() - i,
    {
        proof {
            lemma_size_take(shape@, i as int);
            lemma_size_prefix(shape@, i + 1);
        }
        match acc.checked_mul(shape[i]) {
            Some(next) => {
                acc = next;
            },
            None => {
                return None;
            },
        }
        i += 1;
    }
    proof {
        assert(shape@.take(i as int) =~= shape@);
    }
    Some(acc)
}

/// The element count of the first `k` dimensions of a shape that holds an
/// element.
pub(crate) fn prefix_size(shape: &Vec<usize>, k: usize) -> (r: usize)
    requires
        k <= shape@.len(),
        0 < shape_size(shape@) <= usize::MAX,
    ensures
        r == shape_size(shape@.take(k as int)),
        r >= 1,
{
    proof {
        lemma_size_nonzero(shape@);
    }
    let mut acc: usize = 1;
    let mut i: usize = 0;
    while i < k
        invariant
            i <= k <= shape@.len(),
            !has_zero(shape@),
            shape_size(shape@) <= usize::MAX,
            acc == shape_size(shape@.take(i as int)),
        decreases k - i,
    {
        proof {
            lemma_size_take(shape@, i as int);
            lemma_size_prefix(shape@, i + 1);
        }
        acc = acc * shape[i];
        i += 1;
    }
    proof {
        lemma_size_prefix(shape@, k as int);
    }
    acc
}

} // verus!
