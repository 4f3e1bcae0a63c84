//! Sums over sequences, and the facts about them that the ledger's
//! queries rest on: how a sum grows with the sequence, what bounds it, and
//! that it does not depend on the order of the items.

use vstd::prelude::*;

verus! {

/// The sum of `f` over the items of `s`.
pub open spec fn seq_sum<T>(s: Seq<T>, f: spec_fn(T) -> int) -> int
    decreases s.len(),
{
    if s.len() == 0 {
        0
    } else {
        seq_sum(s.drop_last(), f) + f(s.last())
    }
}

pub proof fn lemma_sum_push<T>(s: Seq<T>, x: T, f: spec_fn(T) -> int)
    ensures
        seq_sum(s.push(x), f) == seq_sum(s, f) + f(x),
{
    assert(s.push(x).drop_last() =~= s);
}

/// One more item of a prefix adds that item's term.
pub proof fn lemma_sum_take_step<T>(s: Seq<T>, i: int, f: spec_fn(T) -> int)
    requires
        0 <= i < s.len(),
    ensures
        seq_sum(s.take(i + 1), f) == seq_sum(s.take(i), f) + f(s[i]),
{
    assert(s.take(i + 1).drop_last() =~= s.take(i));
}

pub proof fn lemma_sum_take_all<T>(s: Seq<T>, f: spec_fn(T) -> int)
    ensures
        seq_sum(s.take(s.len() as int), f) == seq_sum(s, f),
{
    assert(s.take(s.len() as int) =~= s);
}

/// The sum over a concatenation is the sum of the sums.
pub proof fn lemma_sum_concat<T>(a: Seq<T>, b: Seq<T>, f: spec_fn(T) -> int)
    ensures
        seq_sum(a + b, f) == seq_sum(a, f) + seq_sum(b, f),
    decreases b.len(),
{
    if b.len() == 0 {
        assert(a + b =~= a);
    } else {
        assert((a + b).drop_last() =~= a + b.drop_last());
        lemma_sum_concat(a, b.drop_last(), f);
    }
}

/// Taking one item out of a sequence takes its term out of the sum.
pub proof fn lemma_sum_remove<T>(s: Seq<T>, i: int, f: spec_fn(T) -> int)
    requires
        0 <= i < s.len(),
    ensures
        seq_sum(s.remove(i), f) == seq_sum(s, f) - f(s[i]),
{
    let a = s.take(i);
    let b = s.skip(i + 1);
    assert(s =~= a.push(s[i]) + b);
    assert(s.remove(i) =~= a + b);
    lemma_sum_concat(a.push(s[i]), b, f);
    lemma_sum_concat(a, b, f);
    lemma_sum_push(a, s[i], f);
}

/// Replacing one item replaces its term.
pub proof fn lemma_sum_update<T>(s: Seq<T>, i: int, x: T, f: spec_fn(T) -> int)
    requires
        0 <= i < s.len(),
    ensures
        seq_sum(s.update(i, x), f) == seq_sum(s, f) - f(s[i]) + f(x),
{
    let a = s.take(i);
    let b = s.skip(i + 1);
    assert(s =~= a.push(s[i]) + b);
    assert(s.update(i, x) =~= a.push(x) + b);
    lemma_sum_concat(a.push(s[i]), b, f);
    lemma_sum_concat(a.push(x), b, f);
    lemma_sum_push(a, s[i], f);
    lemma_sum_push(a, x, f);
}

/// A sum whose terms all lie between `lo` and `hi` lies between the
/// length's multiples of the two.
pub proof fn lemma_sum_bounds<T>(s: Seq<T>, f: spec_fn(T) -> int, lo: int, hi: int)
    requires
        forall|i: int| 0 <= i < s.len() ==> lo <= f(#[trigger] s[i]) <= hi,
    ensures
        s.len() * lo <= seq_sum(s, f) <= s.len() * hi,
    decreases s.len(),
{
    if s.len() > 0 {
        let t = s.drop_last();
        assert forall|i: int| 0 <= i < t.len() implies lo <= f(#[trigger] t[i]) <= hi by {
            assert(t[i] == s[i]);
        }
        lemma_sum_bounds(t, f, lo, hi);
        assert(s.last() == s[s.len() - 1]);
        assert(s.len() * lo == t.len() * lo + lo) by (nonlinear_arith)
            requires
                s.len() == t.len() + 1,
        ;
        assert(s.len() * hi == t.len() * hi + hi) by (nonlinear_arith)
            requires
                s.len() == t.len() + 1,
        ;
    }
}

/// A sum of terms that are all zero is zero.
pub proof fn lemma_sum_zero<T>(s: Seq<T>, f: spec_fn(T) -> int)
    requires
        forall|i: int| 0 <= i < s.len() ==> f(#[trigger] s[i]) == 0,
    ensures
        seq_sum(s, f) == 0,
{
    lemma_sum_bounds(s, f, 0, 0);
}

/// A sum does not depend on the order of the items: two sequences that
/// hold the same items equally often have the same sum.
pub proof fn lemma_sum_permutation<T>(s: Seq<T>, t: Seq<T>, f: spec_fn(T) -> int)
    requires
        s.to_multiset() == t.to_multiset(),
    ensures
        seq_sum(s, f) == seq_sum(t, f),
    decreases s.len(),
{
    broadcast use vstd::seq_lib::group_to_multiset_ensures;

    s.to_multiset_ensures();
    t.to_multiset_ensures();
    if s.len() == 0 {
        assert(t.to_multiset().len() == 0);
        assert(t.len() == 0);
    } else {
        let x = s.last();
        assert(s.contains(x)) by {
            assert(s[s.len() - 1] == x);
        }
        assert(s.to_multiset().count(x) > 0);
        assert(t.to_multiset().count(x) > 0);
        assert(t.contains(x));
        let j = choose|j: int| 0 <= j < t.len() && t[j] == x;
        let s1 = s.drop_last();
        let t1 = t.remove(j);
        assert(s1 =~= s.remove(s.len() - 1));
        assert(s1.to_multiset() =~= s.to_multiset().remove(x));
        assert(t1.to_multiset() =~= t.to_multiset().remove(x));
        lemma_sum_permutation(s1, t1, f);
        lemma_sum_remove(t, j, f);
    }
}

/// A sum over a prefix of a sequence of at most `cap` items, whose terms
/// all lie between `lo` and `hi`, lies between `cap` times the two.
pub proof fn lemma_prefix_sum_bounds<T>(
    s: Seq<T>,
    n: int,
    f: spec_fn(T) -> int,
    lo: int,
    hi: int,
    cap: int,
)
    requires
        0 <= n <= s.len() <= cap,
        lo <= 0 <= hi,
        forall|i: int| 0 <= i < s.len() ==> lo <= f(#[trigger] s[i]) <= hi,
    ensures
        cap * lo <= seq_sum(s.take(n), f) <= cap * hi,
{
    let t = s.take(n);
    assert forall|i: int| 0 <= i < t.len() implies lo <= f(#[trigger] t[i]) <= hi by {
        assert(t[i] == s[i]);
    }
    lemma_sum_bounds(t, f, lo, hi);
    assert(n * hi <= cap * hi) by (nonlinear_arith)
        requires
            0 <= n <= cap,
            0 <= hi,
    ;
    assert(n * lo >= cap * lo) by (nonlinear_arith)
        requires
            0 <= n <= cap,
            lo <= 0,
    ;
}

/// Term by term: where every term of one sum is at most the term of the
/// other at the same place, the one sum is at most the other.
pub proof fn lemma_sum_pairwise_le<A, B>(
    a: Seq<A>,
    b: Seq<B>,
    f: spec_fn(A) -> int,
    g: spec_fn(B) -> int,
)
    requires
        a.len() == b.len(),
        forall|i: int| 0 <= i < a.len() ==> f(#[trigger] a[i]) <= g(b[i]),
    ensures
        seq_sum(a, f) <= seq_sum(b, g),
    decreases a.len(),
{
    if a.len() > 0 {
        let a1 = a.drop_last();
        let b1 = b.drop_last();
        assert forall|i: int| 0 <= i < a1.len() implies f(#[trigger] a1[i]) <= g(b1[i]) by {
            assert(a1[i] == a[i]);
            assert(b1[i] == b[i]);
        }
        lemma_sum_pairwise_le(a1, b1, f, g);
        assert(f(a[a.len() - 1]) <= g(b[a.len() - 1]));
    }
}

/// Term by term: where every term of one sum equals the term of the other
/// at the same place, the sums are equal.
pub proof fn lemma_sum_pairwise_eq<A, B>(
    a: Seq<A>,
    b: Seq<B>,
    f: spec_fn(A) -> int,
    g: spec_fn(B) -> int,
)
    requires
        a.len() == b.len(),
        forall|i: int| 0 <= i < a.len() ==> f(#[trigger] a[i]) == g(b[i]),
    ensures
        seq_sum(a, f) == seq_sum(b, g),
    decreases a.len(),
{
    if a.len() > 0 {
        let a1 = a.drop_last();
        let b1 = b.drop_last();
        assert forall|i: int| 0 <= i < a1.len() implies f(#[trigger] a1[i]) == g(b1[i]) by {
            assert(a1[i] == a[i]);
            assert(b1[i] == b[i]);
        }
        lemma_sum_pairwise_eq(a1, b1, f, g);
        assert(f(a[a.len() - 1]) == g(b[a.len() - 1]));
    }
}

/// The sum of the sums of two functions is the sum of their sum.
pub proof fn lemma_sum_add<T>(s: Seq<T>, f: spec_fn(T) -> int, g: spec_fn(T) -> int)
    ensures
        seq_sum(s, |x: T| f(x) + g(x)) == seq_sum(s, f) + seq_sum(s, g),
    decreases s.len(),
{
    if s.len() > 0 {
        lemma_sum_add(s.drop_last(), f, g);
    }
}

} // verus!
