//! Pull-based streams with combinators. A stream is described by the items
//! it will give from its current state, position by position (`None` once it
//! gives nothing); `next` gives the item at position 0 and moves every later
//! item one place forward.
use vstd::prelude::*;
use crate::recursion::{fib, lemma_fib_monotonic};

verus! {

/// A source of items, pulled one at a time.
pub trait Stream {
    type Item;

    /// The item at position `i` from the current state (`None`: no item there).
    spec fn at(&self, i: nat) -> Option<Self::Item>;

    /// The state is one that `next` accepts.
    spec fn ready(&self) -> bool;

    fn next(&mut self) -> (r: Option<Self::Item>)
        requires
            old(self).ready(),
        ensures
            final(self).ready(),
            r == old(self).at(0),
            forall|i: nat| #[trigger] final(self).at(i) == old(self).at(i + 1),
    ;
}

/// The items at positions `0..n`, which must all be present.
pub open spec fn first_items<S: Stream>(s: S, n: nat) -> Seq<S::Item> {
    Seq::new(n, |i: int| s.at(i as nat)->0)
}

/// The stream gives exactly `n` items before its first gap.
pub open spec fn ends_after<S: Stream>(s: S, n: nat) -> bool {
    &&& forall|i: nat| i < n ==> #[trigger] s.at(i) is Some
    &&& s.at(n) is None
}

// ─── Sources ───────────────────────────────────────────────────────────

/// The integers from a start up to (not including) an end.
pub struct RangeStream {
    current: u64,
    end: u64,
}

impl RangeStream {
    /// The stream `start, start + 1, ..., end - 1`.
    pub fn new(start: u64, end: u64) -> (s: Self)
        ensures
            s.ready(),
            forall|i: nat| #[trigger] s.at(i) == (if start + i < end { Some((start + i) as u64) } else { None }),
    {
        RangeStream { current: start, end }
    }
}

impl Stream for RangeStream {
    type Item = u64;

    closed spec fn at(&self, i: nat) -> Option<u64> {
        if self.current + i < self.end { Some((self.current + i) as u64) } else { None }
    }

    closed spec fn ready(&self) -> bool {
        true
    }

    fn next(&mut self) -> (r: Option<u64>) {
        if self.current < self.end {
            let val = self.current;
            self.current = self.current + 1;
            Some(val)
        } else {
            None
        }
    }
}

/// The pair `(a, b)` after `i` steps of `(a, b) ↦ (b, a + b)`, where the
/// sum saturates at `u64::MAX`.
pub open spec fn fib_pair(a: u64, b: u64, i: nat) -> (u64, u64)
    decreases i,
{
    if i == 0 {
        (a, b)
    } else {
        fib_pair(b, if a + b > u64::MAX { u64::MAX } else { (a + b) as u64 }, (i - 1) as nat)
    }
}

/// Before saturation sets in, the stream's pairs are consecutive Fibonacci
/// numbers: while `fib(i + 1)` fits in a `u64`, step `i` from `(0, 1)` is
/// `(fib(i), fib(i + 1))`.
pub proof fn law_fib_pair_is_fib(i: nat)
    requires
        fib(i + 1) <= u64::MAX,
    ensures
        fib_pair(0, 1, i) == ((fib(i) as u64), (fib(i + 1) as u64)),
{
    lemma_fib_pair_from(i, 0);
}

/// Stepping from `(fib(k), fib(k + 1))`.
proof fn lemma_fib_pair_from(i: nat, k: nat)
    requires
        fib(k + i + 1) <= u64::MAX,
    ensures
        fib_pair(fib(k) as u64, fib(k + 1) as u64, i) == ((fib(k + i) as u64), (fib(k + i + 1) as u64)),
    decreases i,
{
    lemma_fib_monotonic(k + 1, k + i + 1);
    lemma_fib_monotonic(k, k + i + 1);
    if i > 0 {
        lemma_fib_monotonic(k + 2, k + i + 1);
        assert(fib(k + 2) == fib(k) + fib(k + 1));
        lemma_fib_pair_from((i - 1) as nat, k + 1);
    }
}

/// The Fibonacci numbers, sticking at `u64::MAX` once they would pass it.
pub struct FibStream {
    a: u64,
    b: u64,
}

impl FibStream {
    /// The stream `0, 1, 1, 2, 3, 5, ...`.
    pub fn new() -> (s: Self)
        ensures
            s.ready(),
            forall|i: nat| #[trigger] s.at(i) == Some(fib_pair(0, 1, i).0),
    {
        FibStream { a: 0, b: 1 }
    }
}

impl Default for FibStream {
    fn default() -> (s: Self)
        ensures
            s.ready(),
            forall|i: nat| #[trigger] s.at(i) == Some(fib_pair(0, 1, i).0),
    {
        Self::new()
    }
}

impl Stream for FibStream {
    type Item = u64;

    closed spec fn at(&self, i: nat) -> Option<u64> {
        Some(fib_pair(self.a, self.b, i).0)
    }

    closed spec fn ready(&self) -> bool {
        true
    }

    fn next(&mut self) -> (r: Option<u64>) {
        let result = self.a;
        let next = self.a.saturating_add(self.b);
        self.a = self.b;
        self.b = next;
        Some(result)
    }
}

// ─── Combinators ───────────────────────────────────────────────────────

/// At most the first `remaining` items of a stream.
pub struct TakeStream<S> {
    inner: S,
    remaining: usize,
}

impl<S: Stream> Stream for TakeStream<S> {
    type Item = S::Item;

    closed spec fn at(&self, i: nat) -> Option<S::Item> {
        if i < self.remaining { self.inner.at(i) } else { None }
    }

    closed spec fn ready(&self) -> bool {
        self.inner.ready()
    }

    fn next(&mut self) -> (r: Option<S::Item>) {
        if self.remaining == 0 {
            return None;
        }
        self.remaining = self.remaining - 1;
        self.inner.next()
    }
}

/// A stream's items paired with their positions, counting from a start index.
pub struct EnumerateStream<S> {
    inner: S,
    index: usize,
}

/// How many of the positions before `i` hold an item.
pub open spec fn somes_before<S: Stream>(s: S, i: nat) -> nat
    decreases i,
{
    if i == 0 {
        0
    } else {
        somes_before(s, (i - 1) as nat) + (if s.at((i - 1) as nat) is Some { 1nat } else { 0nat })
    }
}

/// Counting items in a stream moved one place forward.
pub proof fn lemma_somes_before_shift<S: Stream>(s1: S, s2: S, i: nat)
    requires
        forall|j: nat| #[trigger] s2.at(j) == s1.at(j + 1),
    ensures
        somes_before(s1, i + 1) == somes_before(s2, i) + (if s1.at(0) is Some { 1nat } else { 0nat }),
    decreases i,
{
    if i > 0 {
        lemma_somes_before_shift(s1, s2, (i - 1) as nat);
        assert(s2.at((i - 1) as nat) == s1.at(i));
        assert(somes_before(s1, i + 1) == somes_before(s1, i) + (if s1.at(i) is Some { 1nat } else { 0nat }));
        assert(somes_before(s2, i) == somes_before(s2, (i - 1) as nat) + (if s2.at((i - 1) as nat) is Some { 1nat } else { 0nat }));
    } else {
        assert(somes_before(s1, 1) == somes_before(s1, 0) + (if s1.at(0) is Some { 1nat } else { 0nat }));
    }
}

/// The enumerated item at position `i` of `inner`: each item is numbered
/// from `index` by how many items came before it.
pub open spec fn enumerate_at<S: Stream>(inner: S, index: nat, i: nat) -> Option<(usize, S::Item)> {
    match inner.at(i) {
        Some(x) => Some(((index + somes_before(inner, i)) as usize, x)),
        None => None,
    }
}

/// Every item of `inner` gets a number below `usize::MAX`.
pub open spec fn numbers_fit<S: Stream>(inner: S, index: nat) -> bool {
    forall|i: nat| #[trigger] inner.at(i) is Some ==> index + somes_before(inner, i) < usize::MAX
}

impl<S: Stream> Stream for EnumerateStream<S> {
    type Item = (usize, S::Item);

    closed spec fn at(&self, i: nat) -> Option<(usize, S::Item)> {
        enumerate_at(self.inner, self.index as nat, i)
    }

    closed spec fn ready(&self) -> bool {
        self.inner.ready() && numbers_fit(self.inner, self.index as nat)
    }

    fn next(&mut self) -> (r: Option<(usize, S::Item)>) {
        let ghost before = self.inner;
        let ghost old_index = self.index;
        let got = self.inner.next();
        proof {
            assert forall|k: nat| #[trigger] somes_before(before, k + 1) == somes_before(self.inner, k) + (if before.at(0) is Some { 1nat } else { 0nat }) by {
                lemma_somes_before_shift(before, self.inner, k);
            }
            assert(somes_before(before, 0) == 0);
        }
        match got {
            Some(item) => {
                assert(before.at(0) is Some);
                let i = self.index;
                self.index = self.index + 1;
                proof {
                    assert forall|k: nat| #[trigger] self.inner.at(k) is Some implies self.index + somes_before(self.inner, k) < usize::MAX by {
                        assert(self.inner.at(k) == before.at(k + 1));
                        assert(somes_before(before, k + 1) == somes_before(self.inner, k) + 1);
                    }
                    assert forall|k: nat| #[trigger] self.at(k) == enumerate_at(before, old_index as nat, k + 1) by {
                        assert(self.inner.at(k) == before.at(k + 1));
                        assert(somes_before(before, k + 1) == somes_before(self.inner, k) + 1);
                    }
                }
                Some((i, item))
            }
            None => {
                proof {
                    assert forall|k: nat| #[trigger] self.inner.at(k) is Some implies self.index + somes_before(self.inner, k) < usize::MAX by {
                        assert(self.inner.at(k) == before.at(k + 1));
                        assert(somes_before(before, k + 1) == somes_before(self.inner, k));
                    }
                    assert forall|k: nat| #[trigger] self.at(k) == enumerate_at(before, old_index as nat, k + 1) by {
                        assert(self.inner.at(k) == before.at(k + 1));
                        assert(somes_before(before, k + 1) == somes_before(self.inner, k));
                    }
                }
                None
            }
        }
    }
}

/// A stream's items with a function applied to each.
pub struct MapStream<S, F> {
    inner: S,
    f: F,
}

/// `f` accepts every item `inner` will give, and gives one answer for each.
pub open spec fn maps_items<S: Stream, B, F: FnMut(S::Item) -> B>(inner: S, f: F) -> bool {
    forall|i: nat| #[trigger] inner.at(i) is Some ==> item_mapped_once(f, inner.at(i)->0)
}

/// `f` accepts `x` and gives one answer for it.
pub open spec fn item_mapped_once<A, B, F: FnMut(A) -> B>(f: F, x: A) -> bool {
    &&& f.requires((x,))
    &&& forall|b1: B, b2: B| f.ensures((x,), b1) && f.ensures((x,), b2) ==> b1 == b2
}

/// The answer `f` gives for `x`.
pub open spec fn mapped<A, B, F: FnMut(A) -> B>(f: F, x: A) -> B {
    choose|b: B| f.ensures((x,), b)
}

/// The mapped item at position `i`.
pub open spec fn map_at<S: Stream, B, F: FnMut(S::Item) -> B>(inner: S, f: F, i: nat) -> Option<B> {
    match inner.at(i) {
        Some(x) => Some(mapped(f, x)),
        None => None,
    }
}

impl<S: Stream, B, F: FnMut(S::Item) -> B> Stream for MapStream<S, F> {
    type Item = B;

    closed spec fn at(&self, i: nat) -> Option<B> {
        map_at(self.inner, self.f, i)
    }

    closed spec fn ready(&self) -> bool {
        self.inner.ready() && maps_items(self.inner, self.f)
    }

    fn next(&mut self) -> (r: Option<B>) {
        let ghost before = self.inner;
        match self.inner.next() {
            Some(item) => {
                let ghost x = item;
                assert(before.at(0) == Some(x));
                let b = (self.f)(item);
                proof {
                    assert(self.f.ensures((x,), b));
                    assert(self.f.ensures((x,), mapped(self.f, x)));
                    assert forall|k: nat| #[trigger] self.inner.at(k) is Some implies item_mapped_once(self.f, self.inner.at(k)->0) by {
                        assert(self.inner.at(k) == before.at(k + 1));
                    }
                }
                Some(b)
            }
            None => {
                proof {
                    assert forall|k: nat| #[trigger] self.inner.at(k) is Some implies item_mapped_once(self.f, self.inner.at(k)->0) by {
                        assert(self.inner.at(k) == before.at(k + 1));
                    }
                }
                None
            }
        }
    }
}

/// The items of a stream that satisfy a predicate.
pub struct FilterStream<S, F> {
    inner: S,
    predicate: F,
}

/// `p` answers `true` for `x`.
pub open spec fn passes<T, P: FnMut(&T) -> bool>(p: P, x: T) -> bool {
    p.ensures((&x,), true)
}

/// Position `j` of `inner` ends a search: it holds no item, or one that passes.
pub open spec fn is_stop<S: Stream, P: FnMut(&S::Item) -> bool>(inner: S, p: P, j: nat) -> bool {
    match inner.at(j) {
        None => true,
        Some(x) => passes(p, x),
    }
}

/// `j` is the first stop at or after `k`.
pub open spec fn first_stop_is<S: Stream, P: FnMut(&S::Item) -> bool>(inner: S, p: P, k: nat, j: nat) -> bool {
    &&& k <= j
    &&& is_stop(inner, p, j)
    &&& forall|m: nat| k <= m < j ==> !#[trigger] is_stop(inner, p, m)
}

/// The first stop at or after `k`.
pub open spec fn first_stop<S: Stream, P: FnMut(&S::Item) -> bool>(inner: S, p: P, k: nat) -> nat {
    choose|j: nat| first_stop_is(inner, p, k, j)
}

/// The stop that ends the search for the `i`-th output.
pub open spec fn nth_stop<S: Stream, P: FnMut(&S::Item) -> bool>(inner: S, p: P, i: nat) -> nat
    decreases i,
{
    if i == 0 { first_stop(inner, p, 0) } else { first_stop(inner, p, nth_stop(inner, p, (i - 1) as nat) + 1) }
}

/// `p` accepts every item of `inner` and gives one answer for each.
pub open spec fn tests_items<S: Stream, P: FnMut(&S::Item) -> bool>(inner: S, p: P) -> bool {
    forall|i: nat| #[trigger] inner.at(i) is Some ==> item_tested_once(p, inner.at(i)->0)
}

/// `p` accepts `x` and gives one answer for it.
pub open spec fn item_tested_once<T, P: FnMut(&T) -> bool>(p: P, x: T) -> bool {
    &&& p.requires((&x,))
    &&& forall|b1: bool, b2: bool| p.ensures((&x,), b1) && p.ensures((&x,), b2) ==> b1 == b2
}

/// A search from position `k` ends somewhere.
pub open spec fn stop_after<S: Stream, P: FnMut(&S::Item) -> bool>(inner: S, p: P, k: nat) -> bool {
    exists|j: nat| k <= j && #[trigger] is_stop(inner, p, j)
}

/// From every position on, a search ends somewhere.
pub open spec fn stops_recur<S: Stream, P: FnMut(&S::Item) -> bool>(inner: S, p: P) -> bool {
    forall|k: nat| #[trigger] stop_after(inner, p, k)
}

/// From a stop at or after `k`, the first stop at or after `k` exists.
pub proof fn lemma_first_stop_exists<S: Stream, P: FnMut(&S::Item) -> bool>(inner: S, p: P, k: nat, j: nat)
    requires
        k <= j,
        is_stop(inner, p, j),
    ensures
        first_stop_is(inner, p, k, first_stop(inner, p, k)),
    decreases j - k,
{
    if exists|m: nat| k <= m < j && #[trigger] is_stop(inner, p, m) {
        let m = choose|m: nat| k <= m < j && #[trigger] is_stop(inner, p, m);
        lemma_first_stop_exists(inner, p, k, m);
    } else {
        assert(first_stop_is(inner, p, k, j));
    }
}

/// Only one position is the first stop at or after `k`.
pub proof fn lemma_first_stop_unique<S: Stream, P: FnMut(&S::Item) -> bool>(inner: S, p: P, k: nat, a: nat, b: nat)
    requires
        first_stop_is(inner, p, k, a),
        first_stop_is(inner, p, k, b),
    ensures
        a == b,
{
    if a < b {
        assert(!is_stop(inner, p, a));
    } else if b < a {
        assert(!is_stop(inner, p, b));
    }
}

/// Searching a stream moved `d` places forward.
pub proof fn lemma_first_stop_shift<S: Stream, P: FnMut(&S::Item) -> bool>(s0: S, s1: S, p: P, d: nat, k: nat)
    requires
        forall|j: nat| #[trigger] s1.at(j) == s0.at(j + d),
        stops_recur(s0, p),
    ensures
        first_stop(s1, p, k) + d == first_stop(s0, p, k + d),
        first_stop_is(s0, p, k + d, first_stop(s0, p, k + d)),
{
    assert(stop_after(s0, p, k + d));
    let j0 = choose|j: nat| k + d <= j && #[trigger] is_stop(s0, p, j);
    lemma_first_stop_exists(s0, p, k + d, j0);
    let a = first_stop(s0, p, k + d);
    assert(s1.at((a - d) as nat) == s0.at(a));
    assert forall|m: nat| k <= m < a - d implies !#[trigger] is_stop(s1, p, m) by {
        assert(s1.at(m) == s0.at(m + d));
        assert(!is_stop(s0, p, m + d));
    }
    assert(first_stop_is(s1, p, k, (a - d) as nat));
    let b = first_stop(s1, p, k);
    lemma_first_stop_unique(s1, p, k, b, (a - d) as nat);
}

/// The stops of a stream moved past its first stop.
pub proof fn lemma_nth_stop_shift<S: Stream, P: FnMut(&S::Item) -> bool>(s0: S, s1: S, p: P, d: nat, i: nat)
    requires
        forall|j: nat| #[trigger] s1.at(j) == s0.at(j + d),
        stops_recur(s0, p),
        d == nth_stop(s0, p, 0) + 1,
    ensures
        nth_stop(s1, p, i) + d == nth_stop(s0, p, i + 1),
    decreases i,
{
    if i == 0 {
        lemma_first_stop_shift(s0, s1, p, d, 0);
    } else {
        lemma_nth_stop_shift(s0, s1, p, d, (i - 1) as nat);
        lemma_first_stop_shift(s0, s1, p, d, nth_stop(s1, p, (i - 1) as nat) + 1);
    }
}

impl<S: Stream, F: FnMut(&S::Item) -> bool> Stream for FilterStream<S, F> {
    type Item = S::Item;

    closed spec fn at(&self, i: nat) -> Option<S::Item> {
        self.inner.at(nth_stop(self.inner, self.predicate, i))
    }

    closed spec fn ready(&self) -> bool {
        self.inner.ready() && tests_items(self.inner, self.predicate) && stops_recur(self.inner, self.predicate)
    }

    fn next(&mut self) -> (r: Option<S::Item>) {
        let ghost s0 = self.inner;
        let ghost p = self.predicate;
        proof {
            assert(stop_after(s0, p, 0));
            let j0 = choose|j: nat| 0 <= j && #[trigger] is_stop(s0, p, j);
            lemma_first_stop_exists(s0, p, 0, j0);
        }
        let ghost m0 = first_stop(s0, p, 0);
        let ghost mut skipped: nat = 0;
        let mut result: Option<S::Item> = None;
        loop
            invariant_except_break
                forall|j: nat| #[trigger] self.inner.at(j) == s0.at(j + skipped),
                skipped <= m0,
            invariant
                self.inner.ready(),
                self.predicate == p,
                first_stop_is(s0, p, 0, m0),
                m0 == nth_stop(s0, p, 0),
                tests_items(s0, p),
                stops_recur(s0, p),
            ensures
                self.inner.ready(),
                self.predicate == p,
                forall|j: nat| #[trigger] self.inner.at(j) == s0.at(j + m0 + 1),
                result == s0.at(m0),
            decreases m0 - skipped,
        {
            let ghost here = self.inner;
            match self.inner.next() {
                None => {
                    proof {
                        assert(here.at(0) == s0.at(skipped));
                        assert(is_stop(s0, p, skipped));
                        assert(skipped == m0);
                        assert forall|j: nat| #[trigger] self.inner.at(j) == s0.at(j + m0 + 1) by {
                            assert(self.inner.at(j) == here.at(j + 1));
                            assert(here.at(j + 1) == s0.at(j + 1 + skipped));
                        }
                    }
                    result = None;
                    break;
                }
                Some(item) => {
                    proof {
                        assert(here.at(0) == s0.at(skipped));
                        assert(s0.at(skipped) is Some);
                        assert(item_tested_once(p, item));
                    }
                    let keep = (self.predicate)(&item);
                    if keep {
                        proof {
                            assert(is_stop(s0, p, skipped));
                            assert(skipped == m0);
                            assert forall|j: nat| #[trigger] self.inner.at(j) == s0.at(j + m0 + 1) by {
                                assert(self.inner.at(j) == here.at(j + 1));
                                assert(here.at(j + 1) == s0.at(j + 1 + skipped));
                            }
                        }
                        result = Some(item);
                        break;
                    }
                    proof {
                        assert(!is_stop(s0, p, skipped)) by {
                            if passes(p, item) {
                                assert(p.ensures((&item,), true));
                            }
                        }
                        assert(skipped != m0);
                        assert forall|j: nat| #[trigger] self.inner.at(j) == s0.at(j + (skipped + 1)) by {
                            assert(self.inner.at(j) == here.at(j + 1));
                            assert(here.at(j + 1) == s0.at(j + 1 + skipped));
                        }
                        skipped = skipped + 1;
                    }
                }
            }
        }
        proof {
            let s1 = self.inner;
            assert forall|i: nat| #[trigger] self.at(i) == s0.at(nth_stop(s0, p, i + 1)) by {
                lemma_nth_stop_shift(s0, s1, p, m0 + 1, i);
                assert(s1.at(nth_stop(s1, p, i)) == s0.at(nth_stop(s1, p, i) + m0 + 1));
            }
            assert forall|i: nat| #[trigger] s1.at(i) is Some implies item_tested_once(p, s1.at(i)->0) by {
                assert(s1.at(i) == s0.at(i + m0 + 1));
            }
            assert forall|k: nat| #[trigger] stop_after(s1, p, k) by {
                assert(stop_after(s0, p, k + m0 + 1));
                let j0 = choose|j: nat| k + m0 + 1 <= j && #[trigger] is_stop(s0, p, j);
                assert(s1.at((j0 - m0 - 1) as nat) == s0.at(j0));
                assert(is_stop(s1, p, (j0 - m0 - 1) as nat));
            }
        }
        result
    }
}

/// Each item paired with the one before it.
pub struct WindowsStream<S: Stream> {
    inner: S,
    prev: Option<S::Item>,
}

/// The pair at position `i`, starting from the remembered item `prev` and
/// position `k` of `inner`: a position with no item gives no pair and keeps
/// the remembered item; a position with an item pairs it with the
/// remembered one (if any) and remembers it instead.
pub open spec fn win_at<S: Stream>(prev: Option<S::Item>, inner: S, k: nat, i: nat) -> Option<(S::Item, S::Item)>
    decreases i,
{
    let c = inner.at(k);
    if i == 0 {
        match (prev, c) {
            (Some(p), Some(x)) => Some((p, x)),
            _ => None,
        }
    } else {
        win_at(match c { Some(x) => Some(x), None => prev }, inner, k + 1, (i - 1) as nat)
    }
}

/// Pairing on a stream moved one place forward.
pub proof fn lemma_win_at_shift<S: Stream>(s0: S, s1: S, prev: Option<S::Item>, k: nat, i: nat)
    requires
        forall|j: nat| #[trigger] s1.at(j) == s0.at(j + 1),
    ensures
        win_at(prev, s1, k, i) == win_at(prev, s0, k + 1, i),
    decreases i,
{
    assert(s1.at(k) == s0.at(k + 1));
    if i > 0 {
        let c = s1.at(k);
        lemma_win_at_shift(s0, s1, match c { Some(x) => Some(x), None => prev }, k + 1, (i - 1) as nat);
    }
}

impl<S: Stream> WindowsStream<S> where S::Item: Copy {
    /// Reads the first item of `inner` to pair with the next one.
    pub fn new(inner: S) -> (w: Self)
        requires
            inner.ready(),
        ensures
            w.ready(),
            forall|i: nat| #[trigger] w.at(i) == win_at(inner.at(0), inner, 1, i),
    {
        let mut inner = inner;
        let ghost before = inner;
        let prev = inner.next();
        proof {
            assert forall|i: nat| #[trigger] win_at(prev, inner, 0, i) == win_at(before.at(0), before, 1, i) by {
                lemma_win_at_shift(before, inner, prev, 0, i);
            }
        }
        WindowsStream { inner, prev }
    }
}

impl<S: Stream> Stream for WindowsStream<S> where S::Item: Copy {
    type Item = (S::Item, S::Item);

    closed spec fn at(&self, i: nat) -> Option<(S::Item, S::Item)> {
        win_at(self.prev, self.inner, 0, i)
    }

    closed spec fn ready(&self) -> bool {
        self.inner.ready()
    }

    fn next(&mut self) -> (r: Option<(S::Item, S::Item)>) {
        let ghost before = self.inner;
        let ghost p0 = self.prev;
        let got = self.inner.next();
        proof {
            assert forall|q: Option<S::Item>, i: nat| #[trigger] win_at(q, self.inner, 0, i) == win_at(q, before, 1, i) by {
                lemma_win_at_shift(before, self.inner, q, 0, i);
            }
        }
        let current = match got {
            Some(c) => c,
            None => {
                return None;
            }
        };
        let old_prev = self.prev;
        self.prev = Some(current);
        match old_prev {
            Some(p) => Some((p, current)),
            None => None,
        }
    }
}

// ─── Chaining ──────────────────────────────────────────────────────────

/// `out` is a value that folding `f` over `items` from `init` can give.
pub open spec fn folds<T, B, F: FnMut(B, T) -> B>(f: F, init: B, items: Seq<T>, out: B) -> bool
    decreases items.len(),
{
    if items.len() == 0 {
        out == init
    } else {
        exists|mid: B| folds(f, init, items.drop_last(), mid) && #[trigger] f.ensures((mid, items.last()), out)
    }
}

/// Combinators on streams, available on every stream.
pub trait StreamExt: Stream + Sized {
    /// The stream of `f` applied to each item.
    fn map_stream<B, F: FnMut(Self::Item) -> B>(self, f: F) -> (r: MapStream<Self, F>)
        ensures
            forall|i: nat| #[trigger] r.at(i) == map_at(self, f, i),
            r.ready() == (self.ready() && maps_items(self, f)),
    {
        MapStream { inner: self, f }
    }

    /// The stream of the items that satisfy `predicate`.
    fn filter_stream<F: FnMut(&Self::Item) -> bool>(self, predicate: F) -> (r: FilterStream<Self, F>)
        ensures
            forall|i: nat| #[trigger] r.at(i) == self.at(nth_stop(self, predicate, i)),
            r.ready() == (self.ready() && tests_items(self, predicate) && stops_recur(self, predicate)),
    {
        FilterStream { inner: self, predicate }
    }

    /// The stream of at most the first `n` items.
    fn take_stream(self, n: usize) -> (r: TakeStream<Self>)
        ensures
            forall|i: nat| #[trigger] r.at(i) == (if i < n { self.at(i) } else { None }),
            r.ready() == self.ready(),
    {
        TakeStream { inner: self, remaining: n }
    }

    /// The stream of the items numbered from 0.
    fn enumerate_stream(self) -> (r: EnumerateStream<Self>)
        ensures
            forall|i: nat| #[trigger] r.at(i) == enumerate_at(self, 0, i),
            r.ready() == (self.ready() && numbers_fit(self, 0)),
    {
        EnumerateStream { inner: self, index: 0 }
    }

    /// Folds `f` over the items up to the first gap.
    fn fold_stream<B, F: FnMut(B, Self::Item) -> B>(self, init: B, f: F) -> (r: B)
        requires
            self.ready(),
            exists|n: nat| #[trigger] self.at(n) is None,
            forall|i: nat, acc: B| (forall|j: nat| j <= i ==> #[trigger] self.at(j) is Some)
                && folds(f, init, first_items(self, i), acc) ==> #[trigger] f.requires((acc, self.at(i)->0)),
        ensures
            exists|n: nat| ends_after(self, n) && folds(f, init, first_items(self, n), r),
    {
        let ghost s0 = self;
        let ghost n0 = choose|n: nat| #[trigger] s0.at(n) is None;
        let mut s = self;
        let mut f = f;
        let ghost f0 = f;
        let mut acc = init;
        let ghost mut k: nat = 0;
        assert(first_items(s0, 0) =~= Seq::<Self::Item>::empty());
        loop
            invariant_except_break
                k <= n0,
                forall|j: nat| #[trigger] s.at(j) == s0.at(j + k),
            invariant
                s.ready(),
                f == f0,
                s0.at(n0) is None,
                forall|j: nat| j < k ==> #[trigger] s0.at(j) is Some,
                folds(f0, init, first_items(s0, k), acc),
                forall|i: nat, a: B| (forall|j: nat| j <= i ==> #[trigger] s0.at(j) is Some)
                    && folds(f0, init, first_items(s0, i), a) ==> #[trigger] f0.requires((a, s0.at(i)->0)),
            ensures
                ends_after(s0, k),
                folds(f0, init, first_items(s0, k), acc),
            decreases n0 - k,
        {
            let ghost here = s;
            match s.next() {
                None => {
                    assert(here.at(0) == s0.at(k));
                    break;
                }
                Some(item) => {
                    assert(here.at(0) == s0.at(k));
                    assert(s0.at(k) is Some);
                    assert(forall|j: nat| j <= k ==> #[trigger] s0.at(j) is Some);
                    assert(f0.requires((acc, s0.at(k)->0)));
                    let ghost prev = acc;
                    acc = f(acc, item);
                    proof {
                        let items = first_items(s0, k + 1);
                        assert(items.drop_last() =~= first_items(s0, k));
                        assert(items.last() == item);
                        assert(f0.ensures((prev, items.last()), acc));
                        assert forall|j: nat| #[trigger] s.at(j) == s0.at(j + (k + 1)) by {
                            assert(s.at(j) == here.at(j + 1));
                        }
                        k = k + 1;
                    }
                }
            }
        }
        acc
    }

    /// The items up to the first gap, in order.
    fn collect_stream(self) -> (r: Vec<Self::Item>)
        requires
            self.ready(),
            exists|n: nat| #[trigger] self.at(n) is None,
        ensures
            ends_after(self, r@.len()),
            r@ == first_items(self, r@.len()),
    {
        let ghost s0 = self;
        let ghost n0 = choose|n: nat| #[trigger] s0.at(n) is None;
        let mut s = self;
        let mut result: Vec<Self::Item> = Vec::new();
        loop
            invariant_except_break
                result@.len() <= n0,
                forall|j: nat| #[trigger] s.at(j) == s0.at(j + result@.len()),
            invariant
                s.ready(),
                s0.at(n0) is None,
                forall|j: nat| j < result@.len() ==> #[trigger] s0.at(j) is Some,
                result@ == first_items(s0, result@.len()),
            ensures
                ends_after(s0, result@.len()),
                result@ == first_items(s0, result@.len()),
            decreases n0 - result@.len(),
        {
            let ghost here = s;
            match s.next() {
                None => {
                    assert(here.at(0) == s0.at(result@.len()));
                    break;
                }
                Some(item) => {
                    let ghost k = result@.len();
                    assert(here.at(0) == s0.at(k));
                    result.push(item);
                    proof {
                        assert(result@ =~= first_items(s0, k + 1));
                        assert forall|j: nat| #[trigger] s.at(j) == s0.at(j + result@.len()) by {
                            assert(s.at(j) == here.at(j + 1));
                        }
                    }
                }
            }
        }
        result
    }
}

impl<S: Stream + Sized> StreamExt for S {}

} // verus!
