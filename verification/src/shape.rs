//! Element counts of shapes.
//!
//! A shape is a vector of extents; tensor data is laid out row-major, so the
//! byte length of a tensor is the product of its extents times the element
//! width.

use vstd::prelude::*;

verus! {

/// The number of elements of a tensor with the given extents.
pub open spec fn prod(dims: Seq<usize>) -> int
    decreases dims.len(),
{
    if dims.len() == 0 {
        1
    } else {
        prod(dims.drop_last()) * dims.last()
    }
}

pub proof fn lemma_prod_nonneg(dims: Seq<usize>)
    ensures
        prod(dims) >= 0,
    decreases dims.len(),
{
    if dims.len() > 0 {
        lemma_prod_nonneg(dims.drop_last());
        vstd::arithmetic::mul::lemma_mul_nonnegative(prod(dims.drop_last()), dims.last() as int);
    }
}

pub proof fn lemma_prod_concat(a: Seq<usize>, b: Seq<usize>)
    ensures
        prod(a + b) == prod(a) * prod(b),
    decreases b.len(),
{
    if b.len() == 0 {
        assert(a + b =~= a);
    } else {
        lemma_prod_concat(a, b.drop_last());
        assert((a + b).drop_last() =~= a + b.drop_last());
        assert((a + b).last() == b.last());
        vstd::arithmetic::mul::lemma_mul_is_associative(prod(a), prod(b.drop_last()), b.last() as int);
    }
}

/// A product splits at any position.
pub proof fn lemma_prod_split(s: Seq<usize>, k: int)
    requires
        0 <= k <= s.len(),
    ensures
        prod(s) == prod(s.subrange(0, k)) * prod(s.subrange(k, s.len() as int)),
{
    assert(s =~= s.subrange(0, k) + s.subrange(k, s.len() as int));
    lemma_prod_concat(s.subrange(0, k), s.subrange(k, s.len() as int));
}

/// A product decomposes around one position.
pub proof fn lemma_prod_decompose(s: Seq<usize>, d: int)
    requires
        0 <= d < s.len(),
    ensures
        prod(s) == prod(s.subrange(0, d)) * (s[d] as int) * prod(s.subrange(d + 1, s.len() as int)),
        prod(s.subrange(0, d + 1)) == prod(s.subrange(0, d)) * (s[d] as int),
{
    lemma_prod_split(s, d);
    let t = s.subrange(d, s.len() as int);
    assert(t =~= seq![s[d]] + s.subrange(d + 1, s.len() as int));
    lemma_prod_concat(seq![s[d]], s.subrange(d + 1, s.len() as int));
    assert(prod(seq![s[d]]) == s[d]) by {
        assert(seq![s[d]].len() == 1);
        assert(seq![s[d]].last() == s[d]);
        assert(seq![s[d]].drop_last() =~= Seq::<usize>::empty());
        assert(prod(Seq::<usize>::empty()) == 1);
    }
    assert(s.subrange(0, d + 1).drop_last() =~= s.subrange(0, d));
    assert(s.subrange(0, d + 1).last() == s[d]);
    assert(prod(s) == prod(s.subrange(0, d)) * ((s[d] as int) * prod(
        s.subrange(d + 1, s.len() as int),
    )));
    vstd::arithmetic::mul::lemma_mul_is_associative(
        prod(s.subrange(0, d)),
        s[d] as int,
        prod(s.subrange(d + 1, s.len() as int)),
    );
}

/// Dropping a prefix of extents that multiply to something positive keeps
/// the remaining byte count within `usize`.
pub proof fn lemma_suffix_fits(s: Seq<usize>, k: int, z: nat, limit: int)
    requires
        0 <= k <= s.len(),
        prods_fit(s),
        prod(s) * z <= limit,
        prod(s.subrange(0, k)) >= 1,
    ensures
        prods_fit(s.subrange(k, s.len() as int)),
        prod(s.subrange(k, s.len() as int)) * z <= limit,
{
    let p = prod(s.subrange(0, k));
    let t = s.subrange(k, s.len() as int);
    assert forall|j: int| 0 <= j <= t.len() implies prod(#[trigger] t.subrange(0, j))
        <= usize::MAX by {
        assert(s.subrange(0, k + j) =~= s.subrange(0, k) + t.subrange(0, j));
        lemma_prod_concat(s.subrange(0, k), t.subrange(0, j));
        lemma_prod_nonneg(t.subrange(0, j));
        assert(prod(s.subrange(0, k + j)) <= usize::MAX);
        assert(prod(t.subrange(0, j)) <= p * prod(t.subrange(0, j))) by (nonlinear_arith)
            requires
                p >= 1,
                prod(t.subrange(0, j)) >= 0,
        ;
    }
    lemma_prod_split(s, k);
    lemma_prod_nonneg(t);
    assert(prod(t) * z <= p * prod(t) * z) by (nonlinear_arith)
        requires
            p >= 1,
            prod(t) >= 0,
            z >= 0,
    ;
}

/// Replacing one extent by a smaller one keeps every running product within
/// `usize`.
pub proof fn lemma_prods_fit_update(s: Seq<usize>, d: int, b: usize)
    requires
        0 <= d < s.len(),
        b <= s[d],
        prods_fit(s),
    ensures
        prods_fit(s.update(d, b)),
{
    let u = s.update(d, b);
    assert forall|k: int| 0 <= k <= u.len() implies prod(#[trigger] u.subrange(0, k))
        <= usize::MAX by {
        if k <= d {
            assert(u.subrange(0, k) =~= s.subrange(0, k));
        } else {
            let a = s.subrange(0, d);
            let cs = s.subrange(d + 1, k);
            assert(u.subrange(0, k) =~= a + seq![b] + cs);
            assert(s.subrange(0, k) =~= a + seq![s[d]] + cs);
            lemma_prod_concat(a + seq![b], cs);
            lemma_prod_concat(a, seq![b]);
            lemma_prod_concat(a + seq![s[d]], cs);
            lemma_prod_concat(a, seq![s[d]]);
            assert(prod(seq![b]) == b) by {
                assert(seq![b].len() == 1);
                assert(seq![b].last() == b);
                assert(seq![b].drop_last() =~= Seq::<usize>::empty());
                assert(prod(Seq::<usize>::empty()) == 1);
            }
            assert(prod(seq![s[d]]) == s[d]) by {
                assert(seq![s[d]].len() == 1);
                assert(seq![s[d]].last() == s[d]);
                assert(seq![s[d]].drop_last() =~= Seq::<usize>::empty());
                assert(prod(Seq::<usize>::empty()) == 1);
            }
            lemma_prod_nonneg(a);
            lemma_prod_nonneg(cs);
            assert(prod(a) * b * prod(cs) <= prod(a) * (s[d] as int) * prod(cs))
                by (nonlinear_arith)
                requires
                    prod(a) >= 0,
                    prod(cs) >= 0,
                    0 <= b <= s[d],
            ;
            assert(prod(s.subrange(0, k)) <= usize::MAX);
        }
    }
}

/// Whether the running element count stays within `usize` at every prefix,
/// so that a left-to-right product computes without overflow.
pub open spec fn prods_fit(dims: Seq<usize>) -> bool {
    forall|i: int| 0 <= i <= dims.len() ==> prod(#[trigger] dims.subrange(0, i)) <= usize::MAX
}

/// The element count of a shape, or `None` where the running product leaves
/// `usize`.
pub fn elem_count(dims: &Vec<usize>) -> (r: Option<usize>)
    ensures
        r matches Some(n) ==> n == prod(dims@) && prods_fit(dims@),
        r is None ==> !prods_fit(dims@),
{
    let ghost s = dims@;
    let mut acc: usize = 1;
    let mut i: usize = 0;
    proof {
        assert(s.subrange(0, 0) =~= Seq::<usize>::empty());
    }
    while i < dims.len()
        invariant
            0 <= i <= s.len(),
            dims@ == s,
            acc == prod(s.subrange(0, i as int)),
            forall|j: int| 0 <= j <= i ==> prod(#[trigger] s.subrange(0, j)) <= usize::MAX,
        decreases s.len() - i,
    {
        proof {
            assert(s.subrange(0, i + 1).drop_last() =~= s.subrange(0, i as int));
            assert(s.subrange(0, i + 1).last() == s[i as int]);
        }
        match acc.checked_mul(dims[i]) {
            Some(next) => {
                acc = next;
            },
            None => {
                proof {
                    assert(prod(s.subrange(0, i + 1)) > usize::MAX);
                    assert(!prods_fit(s));
                }
                return None;
            },
        }
        i = i + 1;
    }
    proof {
        assert(s.subrange(0, s.len() as int) =~= s);
    }
    Some(acc)
}

/// Whether two shapes are equal extent by extent.
pub fn dims_eq(a: &Vec<usize>, b: &Vec<usize>) -> (r: bool)
    ensures
        r == (a@ == b@),
{
    if a.len() != b.len() {
        proof {
            assert(a@.len() != b@.len());
        }
        return false;
    }
    let mut i: usize = 0;
    while i < a.len()
        invariant
            i <= a@.len(),
            a@.len() == b@.len(),
            forall|j: int| 0 <= j < i ==> a@[j] == b@[j],
        decreases a@.len() - i,
    {
        if a[i] != b[i] {
            return false;
        }
        i = i + 1;
    }
    proof {
        assert(a@ =~= b@);
    }
    true
}

/// The byte length of a tensor with the given extents and element width, or
/// `None` where it leaves `usize`.
pub fn byte_count(dims: &Vec<usize>, elem_size: usize) -> (r: Option<usize>)
    ensures
        r matches Some(n) ==> n == prod(dims@) * elem_size && prods_fit(dims@),
        r is None ==> !(prods_fit(dims@) && prod(dims@) * elem_size <= usize::MAX),
{
    match elem_count(dims) {
        Some(n) => {
            proof {
                lemma_prod_nonneg(dims@);
            }
            n.checked_mul(elem_size)
        },
        None => None,
    }
}

} // verus!
