use vstd::prelude::*;

verus! {

broadcast use vstd::seq_lib::group_to_multiset_ensures;

/// The sum of `f` over the elements of `s`.
pub open spec fn sum_by<A>(s: Seq<A>, f: spec_fn(A) -> nat) -> nat
    decreases s.len(),
{
    if s.len() == 0 {
        0
    } else {
        sum_by(s.drop_last(), f) + f(s.last())
    }
}

/// Appending one element adds its value.
pub proof fn lemma_sum_push<A>(s: Seq<A>, x: A, f: spec_fn(A) -> nat)
    ensures
        sum_by(s.push(x), f) == sum_by(s, f) + f(x),
{
    assert(s.push(x).drop_last() =~= s);
}

/// The sum of a concatenation is the sum of the sums.
pub proof fn lemma_sum_concat<A>(a: Seq<A>, b: Seq<A>, f: spec_fn(A) -> nat)
    ensures
        sum_by(a + b, f) == sum_by(a, f) + sum_by(b, f),
    decreases b.len(),
{
    if b.len() == 0 {
        assert(a + b =~= a);
    } else {
        lemma_sum_concat(a, b.drop_last(), f);
        assert((a + b).drop_last() =~= a + b.drop_last());
    }
}

/// A prefix sums to no more than the whole.
pub proof fn lemma_sum_prefix<A>(s: Seq<A>, i: int, f: spec_fn(A) -> nat)
    requires
        0 <= i <= s.len(),
    ensures
        sum_by(s.take(i), f) <= sum_by(s, f),
{
    lemma_sum_concat(s.take(i), s.skip(i), f);
    assert(s.take(i) + s.skip(i) =~= s);
}

/// Removing one element takes away its value.
pub proof fn lemma_sum_remove<A>(s: Seq<A>, i: int, f: spec_fn(A) -> nat)
    requires
        0 <= i < s.len(),
    ensures
        sum_by(s, f) == sum_by(s.remove(i), f) + f(s[i]),
{
    let pre = s.take(i);
    let post = s.skip(i + 1);
    assert(s =~= pre + (seq![s[i]] + post));
    assert(s.remove(i) =~= pre + post);
    lemma_sum_concat(pre, seq![s[i]] + post, f);
    lemma_sum_concat(seq![s[i]], post, f);
    lemma_sum_concat(pre, post, f);
    assert(seq![s[i]] =~= Seq::<A>::empty().push(s[i]));
    lemma_sum_push(Seq::<A>::empty(), s[i], f);
}

/// Reordering a sequence leaves its sum unchanged.
pub proof fn lemma_sum_reorder<A>(a: Seq<A>, b: Seq<A>, f: spec_fn(A) -> nat)
    requires
        a.to_multiset() == b.to_multiset(),
    ensures
        sum_by(a, f) == sum_by(b, f),
    decreases a.len(),
{
    if a.len() == 0 {
        assert(a.to_multiset().len() == a.len());
        assert(b.to_multiset().len() == b.len());
    } else {
        let x = a.last();
        assert(a.to_multiset().count(x) > 0) by {
            assert(a.contains(x)) by {
                assert(a[a.len() - 1] == x);
            }
        }
        assert(b.contains(x));
        let j = choose|j: int| 0 <= j < b.len() && b[j] == x;
        let b2 = b.remove(j);
        assert(a.drop_last().push(x) =~= a);
        assert(a.drop_last().to_multiset() =~= a.to_multiset().remove(x));
        lemma_sum_reorder(a.drop_last(), b2, f);
        lemma_sum_remove(b, j, f);
    }
}

} // verus!
