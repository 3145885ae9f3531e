//! Spec-level helpers over sequences: sums, overflow bounds, and their lemmas.
use vstd::prelude::*;

verus! {

/// The sum of a sequence of integers.
pub open spec fn sum_of(s: Seq<int>) -> int
    decreases s.len(),
{
    if s.len() == 0 {
        0
    } else {
        sum_of(s.drop_last()) + s.last()
    }
}

/// Widens a sequence of `i32` to mathematical integers.
pub open spec fn ints(s: Seq<i32>) -> Seq<int> {
    s.map_values(|x: i32| x as int)
}

/// Every running total of `s` (starting from 0) fits in an `i32`.
pub open spec fn i32_prefix_sums_fit(s: Seq<int>) -> bool {
    forall|k: int| 0 <= k <= s.len() ==> i32::MIN <= #[trigger] sum_of(s.take(k)) <= i32::MAX
}

pub proof fn lemma_sum_push(s: Seq<int>, x: int)
    ensures
        sum_of(s.push(x)) == sum_of(s) + x,
{
    assert(s.push(x).drop_last() =~= s);
}

pub proof fn lemma_take_succ<A>(s: Seq<A>, i: int)
    requires
        0 <= i < s.len(),
    ensures
        s.take(i + 1) == s.take(i).push(s[i]),
{
    assert(s.take(i + 1) =~= s.take(i).push(s[i]));
}

pub proof fn lemma_sum_take_succ(s: Seq<int>, i: int)
    requires
        0 <= i < s.len(),
    ensures
        sum_of(s.take(i + 1)) == sum_of(s.take(i)) + s[i],
{
    lemma_take_succ(s, i);
    lemma_sum_push(s.take(i), s[i]);
}

/// Filtering a one-longer prefix adds at most the new element.
pub proof fn lemma_filter_take_succ<A>(s: Seq<A>, p: spec_fn(A) -> bool, i: int)
    requires
        0 <= i < s.len(),
    ensures
        s.take(i + 1).filter(p) == (if p(s[i]) {
            s.take(i).filter(p).push(s[i])
        } else {
            s.take(i).filter(p)
        }),
{
    reveal_with_fuel(Seq::filter, 1);
    assert(s.take(i + 1).drop_last() =~= s.take(i));
}

pub proof fn lemma_take_full<A>(s: Seq<A>)
    ensures
        s.take(s.len() as int) == s,
{
    assert(s.take(s.len() as int) =~= s);
}


/// The sum of `f` over the elements of `s`.
pub open spec fn sum_map(s: Seq<i32>, f: spec_fn(i32) -> int) -> int
    decreases s.len(),
{
    if s.len() == 0 {
        0
    } else {
        sum_map(s.drop_last(), f) + f(s.last())
    }
}

/// Every running total of `f` over a prefix of `s` fits in an `i32`.
pub open spec fn i32_running_fits(s: Seq<i32>, f: spec_fn(i32) -> int) -> bool {
    forall|k: int| 0 <= k <= s.len() ==> i32::MIN <= #[trigger] sum_map(s.take(k), f) <= i32::MAX
}

pub proof fn lemma_sum_map_take_succ(s: Seq<i32>, f: spec_fn(i32) -> int, i: int)
    requires
        0 <= i < s.len(),
    ensures
        sum_map(s.take(i + 1), f) == sum_map(s.take(i), f) + f(s[i]),
{
    assert(s.take(i + 1).drop_last() =~= s.take(i));
}

/// `r` holds a clone of each element of `s`, in order.
pub open spec fn clones_of<T: Clone>(s: Seq<T>, r: Seq<T>) -> bool {
    &&& r.len() == s.len()
    &&& forall|i: int| 0 <= i < r.len() ==> cloned::<T>(s[i], #[trigger] r[i])
}

/// Clones of `x` followed by `s` are a clone of `x` followed by clones of
/// `s`; where cloning gives back an equal value, the clones are the elements.
pub proof fn lemma_clones_of_prepend<T: Clone>(x: T, s: Seq<T>, r0: Seq<T>, r1: Seq<T>)
    requires
        clones_of(s, r0),
        clones_of(seq![x] + s, r1),
        forall|a: T, b: T| cloned::<T>(a, b) ==> a == b,
    ensures
        r0 == s,
        r1 == seq![x] + r0,
{
    assert forall|i: int| 0 <= i < r0.len() implies r0[i] == s[i] by {
        assert(cloned::<T>(s[i], r0[i]));
    }
    assert(r0 =~= s);
    assert forall|i: int| 0 <= i < r1.len() implies r1[i] == (seq![x] + s)[i] by {
        assert(cloned::<T>((seq![x] + s)[i], r1[i]));
    }
    assert(r1 =~= seq![x] + r0);
}

} // verus!
