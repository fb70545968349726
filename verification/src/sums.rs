//! Sums over sequences.

use vstd::prelude::*;

verus! {

/// The sum of `f` over the elements of `s`.
pub open spec fn sum_of<T>(s: Seq<T>, f: spec_fn(T) -> int) -> int
    decreases s.len(),
{
    if s.len() == 0 {
        0
    } else {
        sum_of(s.drop_last(), f) + f(s.last())
    }
}

/// Every element's value is at least zero.
pub open spec fn non_negative<T>(s: Seq<T>, f: spec_fn(T) -> int) -> bool {
    forall|i: int| 0 <= i < s.len() ==> 0 <= #[trigger] f(s[i])
}

/// A sum of values that are at least zero is at least zero.
pub proof fn lemma_sum_non_negative<T>(s: Seq<T>, f: spec_fn(T) -> int)
    requires
        non_negative(s, f),
    ensures
        0 <= sum_of(s, f),
    decreases s.len(),
{
    if s.len() > 0 {
        assert(0 <= f(s[s.len() - 1]));
        assert forall|i: int| 0 <= i < s.drop_last().len() implies 0 <= #[trigger] f(
            s.drop_last()[i],
        ) by {
            assert(s.drop_last()[i] == s[i]);
        }
        lemma_sum_non_negative(s.drop_last(), f);
    }
}

/// The sum over a sequence with one more element at its end.
pub proof fn lemma_sum_push<T>(s: Seq<T>, x: T, f: spec_fn(T) -> int)
    ensures
        sum_of(s.push(x), f) == sum_of(s, f) + f(x),
{
    assert(s.push(x).drop_last() =~= s);
}

/// The sum over a sequence with one more element at position `i`.
pub proof fn lemma_sum_insert<T>(s: Seq<T>, i: int, x: T, f: spec_fn(T) -> int)
    requires
        0 <= i <= s.len(),
    ensures
        sum_of(s.insert(i, x), f) == sum_of(s, f) + f(x),
    decreases s.len(),
{
    if i == s.len() {
        assert(s.insert(i, x) =~= s.push(x));
        lemma_sum_push(s, x, f);
    } else {
        assert(s.insert(i, x).drop_last() =~= s.drop_last().insert(i, x));
        assert(s.insert(i, x).last() == s.last());
        lemma_sum_insert(s.drop_last(), i, x, f);
    }
}

/// The sum over a sequence whose element at position `i` is replaced.
pub proof fn lemma_sum_update<T>(s: Seq<T>, i: int, x: T, f: spec_fn(T) -> int)
    requires
        0 <= i < s.len(),
    ensures
        sum_of(s.update(i, x), f) == sum_of(s, f) - f(s[i]) + f(x),
    decreases s.len(),
{
    if i == s.len() - 1 {
        assert(s.update(i, x).drop_last() =~= s.drop_last());
    } else {
        assert(s.update(i, x).drop_last() =~= s.drop_last().update(i, x));
        assert(s.update(i, x).last() == s.last());
        lemma_sum_update(s.drop_last(), i, x, f);
    }
}

/// Where no value is negative, the sum over the first `k` elements is at
/// most the whole sum, and grows with `k`.
pub proof fn lemma_sum_take<T>(s: Seq<T>, k: int, f: spec_fn(T) -> int)
    requires
        non_negative(s, f),
        0 <= k <= s.len(),
    ensures
        0 <= sum_of(s.take(k), f) <= sum_of(s, f),
        k < s.len() ==> sum_of(s.take(k + 1), f) == sum_of(s.take(k), f) + f(s[k]),
    decreases s.len() - k,
{
    assert forall|i: int| 0 <= i < s.take(k).len() implies 0 <= #[trigger] f(s.take(k)[i]) by {
        assert(s.take(k)[i] == s[i]);
    }
    lemma_sum_non_negative(s.take(k), f);
    if k == s.len() {
        assert(s.take(k) =~= s);
    } else {
        assert(s.take(k + 1).drop_last() =~= s.take(k));
        assert(s.take(k + 1).last() == s[k]);
        assert(0 <= f(s[k]));
        lemma_sum_take(s, k + 1, f);
    }
}

/// Where no value is negative, no element's value exceeds the sum.
pub proof fn lemma_sum_bounds_element<T>(s: Seq<T>, i: int, f: spec_fn(T) -> int)
    requires
        non_negative(s, f),
        0 <= i < s.len(),
    ensures
        f(s[i]) <= sum_of(s, f),
{
    lemma_sum_take(s, i, f);
    lemma_sum_take(s, i + 1, f);
}

/// A positive sum has a positive element.
pub proof fn lemma_sum_positive<T>(s: Seq<T>, f: spec_fn(T) -> int)
    requires
        0 < sum_of(s, f),
    ensures
        exists|i: int| 0 <= i < s.len() && 0 < #[trigger] f(s[i]),
    decreases s.len(),
{
    if 0 < f(s.last()) {
        assert(0 < f(s[s.len() - 1]));
    } else {
        lemma_sum_positive(s.drop_last(), f);
        let i = choose|i: int| 0 <= i < s.drop_last().len() && 0 < #[trigger] f(s.drop_last()[i]);
        assert(s.drop_last()[i] == s[i]);
        assert(0 < f(s[i]));
    }
}

} // verus!
