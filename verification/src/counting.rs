//! Sums over sequences, by which the multiplexer's books are kept: how often a request
//! is awaited, how often a name is in use.

use vstd::prelude::*;

verus! {

/// The sum of the weights of the elements of `s`.
pub open spec fn total<T>(s: Seq<T>, weight: spec_fn(T) -> nat) -> nat
    decreases s.len(),
{
    if s.len() == 0 {
        0
    } else {
        total(s.drop_last(), weight) + weight(s.last())
    }
}

/// One more element adds its weight.
pub proof fn lemma_total_push<T>(s: Seq<T>, x: T, weight: spec_fn(T) -> nat)
    ensures
        total(s.push(x), weight) == total(s, weight) + weight(x),
{
    assert(s.push(x).drop_last() =~= s);
}

/// The sum over two sequences put together is the sum of their sums.
pub proof fn lemma_total_add<T>(a: Seq<T>, b: Seq<T>, weight: spec_fn(T) -> nat)
    ensures
        total(a + b, weight) == total(a, weight) + total(b, weight),
    decreases b.len(),
{
    if b.len() == 0 {
        assert(a + b =~= a);
    } else {
        assert((a + b).drop_last() =~= a + b.drop_last());
        lemma_total_add(a, b.drop_last(), weight);
    }
}

/// An element that leaves takes its weight with it.
pub proof fn lemma_total_remove<T>(s: Seq<T>, k: int, weight: spec_fn(T) -> nat)
    requires
        0 <= k < s.len(),
    ensures
        total(s.remove(k), weight) + weight(s[k]) == total(s, weight),
    decreases s.len(),
{
    if k == s.len() - 1 {
        assert(s.remove(k) =~= s.drop_last());
    } else {
        assert(s.remove(k).drop_last() =~= s.drop_last().remove(k));
        assert(s.remove(k).last() == s.last());
        lemma_total_remove(s.drop_last(), k, weight);
    }
}

/// An element that is replaced changes the sum by the difference of the weights.
pub proof fn lemma_total_update<T>(s: Seq<T>, k: int, x: T, weight: spec_fn(T) -> nat)
    requires
        0 <= k < s.len(),
    ensures
        total(s.update(k, x), weight) + weight(s[k]) == total(s, weight) + weight(x),
    decreases s.len(),
{
    if k == s.len() - 1 {
        assert(s.update(k, x).drop_last() =~= s.drop_last());
    } else {
        assert(s.update(k, x).drop_last() =~= s.drop_last().update(k, x));
        lemma_total_update(s.drop_last(), k, x, weight);
    }
}

/// Two sequences of one length whose elements weigh the same, place by place, have
/// the same sum.
pub proof fn lemma_total_pointwise<T, U>(
    a: Seq<T>,
    weight_a: spec_fn(T) -> nat,
    b: Seq<U>,
    weight_b: spec_fn(U) -> nat,
)
    requires
        a.len() == b.len(),
        forall|i: int| 0 <= i < a.len() ==> weight_a(a[i]) == weight_b(b[i]),
    ensures
        total(a, weight_a) == total(b, weight_b),
    decreases a.len(),
{
    if a.len() > 0 {
        lemma_total_pointwise(a.drop_last(), weight_a, b.drop_last(), weight_b);
    }
}

/// A sum is nothing exactly when every weight is.
pub proof fn lemma_total_zero<T>(s: Seq<T>, weight: spec_fn(T) -> nat)
    ensures
        total(s, weight) == 0 <==> forall|i: int| 0 <= i < s.len() ==> weight(s[i]) == 0,
    decreases s.len(),
{
    if s.len() > 0 {
        lemma_total_zero(s.drop_last(), weight);
        if total(s, weight) == 0 {
            assert forall|i: int| 0 <= i < s.len() implies weight(s[i]) == 0 by {
                if i < s.len() - 1 {
                    assert(s.drop_last()[i] == s[i]);
                }
            }
        } else {
            if total(s.drop_last(), weight) != 0 {
                let i = choose|i: int| 0 <= i < s.drop_last().len() && weight(s.drop_last()[i]) != 0;
                assert(s[i] == s.drop_last()[i]);
            }
        }
    }
}

/// No element weighs more than the sum.
pub proof fn lemma_total_bounds<T>(s: Seq<T>, k: int, weight: spec_fn(T) -> nat)
    requires
        0 <= k < s.len(),
    ensures
        weight(s[k]) <= total(s, weight),
{
    lemma_total_remove(s, k, weight);
}

/// Where every weight is at most another, the sum is at most the other sum.
pub proof fn lemma_total_within<T>(s: Seq<T>, less: spec_fn(T) -> nat, more: spec_fn(T) -> nat)
    requires
        forall|x: T| #[trigger] less(x) <= more(x),
    ensures
        total(s, less) <= total(s, more),
    decreases s.len(),
{
    if s.len() > 0 {
        lemma_total_within(s.drop_last(), less, more);
    }
}

} // verus!
