//! The same problems solved in an object style and in a functional style:
//! strategies, decorators, counters, observers and composition.
use vstd::prelude::*;
use vstd::string::*;
use crate::text::{push_char, nat_text, int_text, push_i64};

verus! {

// ─── Strategy ──────────────────────────────────────────────────────────

/// Every element is at most every later element.
pub open spec fn sorted(s: Seq<i32>) -> bool {
    forall|i: int, j: int| 0 <= i <= j < s.len() ==> s[i] <= s[j]
}

/// What a sort must do: the result is sorted and holds the same elements.
pub open spec fn sorts(before: Seq<i32>, after: Seq<i32>) -> bool {
    &&& sorted(after)
    &&& after.to_multiset() == before.to_multiset()
}

/// A sort has one possible result: any two results of sorting the same
/// values are equal, so every strategy here gives the same vector as any
/// other correct sort, the standard one included.
pub proof fn law_sort_result_unique(before: Seq<i32>, a: Seq<i32>, b: Seq<i32>)
    requires
        sorts(before, a),
        sorts(before, b),
    ensures
        a == b,
{
    let leq = |x: i32, y: i32| x <= y;
    assert(vstd::relations::total_ordering(leq)) by {
        assert(vstd::relations::reflexive(leq));
        assert(vstd::relations::antisymmetric(leq));
        assert(vstd::relations::transitive(leq));
        assert(vstd::relations::strongly_connected(leq));
    }
    assert(vstd::relations::sorted_by(a, leq));
    assert(vstd::relations::sorted_by(b, leq));
    vstd::seq_lib::lemma_sorted_unique(a, b, leq);
}

/// A way of sorting a vector in place.
pub trait SortStrategy {
    fn sort(&self, data: &mut Vec<i32>)
        ensures
            sorts(old(data)@, final(data)@),
    ;
}

/// Sorting by repeated swaps of adjacent elements.
pub struct BubbleSort;

/// Exchanges the elements at `j` and `j + 1`.
fn swap_adjacent(data: &mut Vec<i32>, j: usize)
    requires
        j + 1 < old(data)@.len(),
    ensures
        final(data)@ == old(data)@.update(j as int, old(data)@[j + 1]).update(j + 1, old(data)@[j as int]),
        final(data)@.to_multiset() == old(data)@.to_multiset(),
{
    let n = data.len();
    let a = data[j];
    let b = data[j + 1];
    data.set(j, b);
    data.set(j + 1, a);
    proof {
        broadcast use vstd::seq_lib::to_multiset_update;
        broadcast use vstd::multiset::group_multiset_axioms;
        broadcast use vstd::multiset::group_multiset_properties;
        broadcast use vstd::seq_lib::to_multiset_contains;
        let s0 = old(data)@;
        assert(s0.contains(a) && s0.contains(b)) by {
            assert(s0[j as int] == a && s0[j + 1] == b);
        }
        let s1 = s0.update(j as int, b);
        assert(s1[j + 1] == b);
        assert(s1.to_multiset() == s0.to_multiset().insert(b).remove(a));
        assert(s1.update(j + 1, a).to_multiset() == s1.to_multiset().insert(a).remove(b));
        assert(s0.to_multiset().insert(b).remove(a).insert(a).remove(b) =~= s0.to_multiset());
    }
}

/// Sorts `data` in place by bubble sort: after pass `i` the last `i + 1`
/// places hold the largest elements in order.
pub fn bubble_sort_fn(data: &mut Vec<i32>)
    ensures
        sorts(old(data)@, final(data)@),
{
    let n = data.len();
    let mut i: usize = 0;
    while i < n
        invariant
            n == data@.len(),
            i <= n,
            data@.to_multiset() == old(data)@.to_multiset(),
            forall|p: int, q: int| n - i <= p <= q < n ==> data@[p] <= data@[q],
            forall|p: int, q: int| 0 <= p < n - i <= q < n ==> data@[p] <= data@[q],
        decreases n - i,
    {
        let mut j: usize = 0;
        while j < n - 1 - i
            invariant
                n == data@.len(),
                i < n,
                j <= n - 1 - i,
                data@.to_multiset() == old(data)@.to_multiset(),
                forall|p: int, q: int| n - i <= p <= q < n ==> data@[p] <= data@[q],
                forall|p: int, q: int| 0 <= p < n - i <= q < n ==> data@[p] <= data@[q],
                forall|p: int| 0 <= p <= j ==> data@[p] <= data@[j as int],
            decreases n - 1 - i - j,
        {
            if data[j] > data[j + 1] {
                swap_adjacent(data, j);
            }
            j += 1;
        }
        i += 1;
    }
}

impl SortStrategy for BubbleSort {
    fn sort(&self, data: &mut Vec<i32>) {
        bubble_sort_fn(data);
    }
}

/// Sorts with the strategy it was given.
pub struct Sorter<S: SortStrategy> {
    strategy: Box<S>,
}

impl<S: SortStrategy> Sorter<S> {
    /// The strategy this sorter applies.
    pub closed spec fn uses(self) -> S {
        *self.strategy
    }

    pub fn new(strategy: Box<S>) -> (s: Self)
        ensures
            s.uses() == *strategy,
    {
        Sorter { strategy }
    }

    pub fn sort(&self, data: &mut Vec<i32>)
        ensures
            sorts(old(data)@, final(data)@),
    {
        self.strategy.sort(data);
    }
}

/// Sorts `data` with a sorting function handed in as a value.
pub fn sort_with<F>(data: &mut Vec<i32>, strategy: F)
    where
        F: Fn(&mut Vec<i32>),
    requires
        forall|d: &mut Vec<i32>| *d == *old(data) ==> #[trigger] strategy.requires((d,)),
    ensures
        exists|d: &mut Vec<i32>|
            *d == *old(data) && *final(d) == *final(data) && #[trigger] strategy.ensures((d,), ()),
{
    strategy(data);
}

// ─── Decorator ─────────────────────────────────────────────────────────

/// `[ts] line`: a line behind a bracketed timestamp.
pub open spec fn stamped(ts: Seq<char>, line: Seq<char>) -> Seq<char> {
    seq!['['] + ts + seq![']', ' '] + line
}

/// `prefix line`: a line behind a prefix and a space.
pub open spec fn prefixed(prefix: Seq<char>, line: Seq<char>) -> Seq<char> {
    prefix + seq![' '] + line
}

/// Something that turns a message into a log line.
pub trait Logger {
    /// The line this logger writes for `message`.
    spec fn line(&self, message: Seq<char>) -> Seq<char>;

    fn log(&self, message: &str) -> (r: String)
        ensures
            r@ == self.line(message@),
    ;
}

/// Writes the message as it is.
pub struct PlainLogger;

impl Logger for PlainLogger {
    open spec fn line(&self, message: Seq<char>) -> Seq<char> {
        message
    }

    fn log(&self, message: &str) -> (r: String) {
        String::from_str(message)
    }
}

/// Puts a timestamp in front of what the wrapped logger writes.
pub struct TimestampLogger<L: Logger> {
    inner: Box<L>,
    timestamp: String,
}

impl<L: Logger> TimestampLogger<L> {
    /// The wrapped logger.
    pub closed spec fn wrapped(self) -> L {
        *self.inner
    }

    /// The timestamp written in front of each line.
    pub closed spec fn stamp(self) -> Seq<char> {
        self.timestamp@
    }

    pub fn new(inner: Box<L>, timestamp: &str) -> (l: Self)
        ensures
            l.wrapped() == *inner,
            l.stamp() == timestamp@,
    {
        TimestampLogger { inner, timestamp: String::from_str(timestamp) }
    }
}

impl<L: Logger> Logger for TimestampLogger<L> {
    open spec fn line(&self, message: Seq<char>) -> Seq<char> {
        stamped(self.stamp(), self.wrapped().line(message))
    }

    fn log(&self, message: &str) -> (r: String) {
        let inner_line = self.inner.log(message);
        let mut r = String::new();
        push_char(&mut r, '[');
        r.append(self.timestamp.as_str());
        push_char(&mut r, ']');
        push_char(&mut r, ' ');
        r.append(inner_line.as_str());
        assert(r@ =~= stamped(self.stamp(), self.wrapped().line(message@)));
        r
    }
}

/// Decorates a line-producing function so each line gets the timestamp `ts` in front.
pub fn with_timestamp<'a, F>(f: F, ts: &'a str) -> (g: impl Fn(&str) -> String + 'a)
    where
        F: Fn(&str) -> String + 'a,
    ensures
        forall|m: &str| f.requires((m,)) ==> #[trigger] g.requires((m,)),
        forall|m: &str, r: String| g.ensures((m,), r) ==>
            exists|fr: String| #[trigger] f.ensures((m,), fr) && r@ == stamped(ts@, fr@),
{
    move |msg: &str| -> (r: String)
        requires
            f.requires((msg,)),
        ensures
            exists|fr: String| #[trigger] f.ensures((msg,), fr) && r@ == stamped(ts@, fr@),
    {
        let line = f(msg);
        let mut r = String::new();
        push_char(&mut r, '[');
        r.append(ts);
        push_char(&mut r, ']');
        push_char(&mut r, ' ');
        r.append(line.as_str());
        assert(r@ =~= stamped(ts@, line@));
        r
    }
}

/// Decorates a line-producing function so each line gets `prefix` and a space in front.
pub fn with_prefix<'a, F>(f: F, prefix: &'a str) -> (g: impl Fn(&str) -> String + 'a)
    where
        F: Fn(&str) -> String + 'a,
    ensures
        forall|m: &str| f.requires((m,)) ==> #[trigger] g.requires((m,)),
        forall|m: &str, r: String| g.ensures((m,), r) ==>
            exists|fr: String| #[trigger] f.ensures((m,), fr) && r@ == prefixed(prefix@, fr@),
{
    move |msg: &str| -> (r: String)
        requires
            f.requires((msg,)),
        ensures
            exists|fr: String| #[trigger] f.ensures((msg,), fr) && r@ == prefixed(prefix@, fr@),
    {
        let line = f(msg);
        let mut r = String::from_str(prefix);
        push_char(&mut r, ' ');
        r.append(line.as_str());
        assert(r@ =~= prefixed(prefix@, line@));
        r
    }
}

// ─── State: a mutable counter and an immutable one ─────────────────────

/// A counter that moves by a fixed step each time it is incremented.
pub struct Counter {
    count: i32,
    step: i32,
}

impl Counter {
    /// The current count.
    pub closed spec fn count_value(self) -> int {
        self.count as int
    }

    /// The step added by each increment.
    pub closed spec fn step_value(self) -> int {
        self.step as int
    }

    pub fn new(step: i32) -> (c: Self)
        ensures
            c.count_value() == 0,
            c.step_value() == step,
    {
        Counter { count: 0, step }
    }

    /// Adds the step to the count; the sum must fit in an `i32`.
    pub fn increment(&mut self)
        requires
            i32::MIN <= old(self).count_value() + old(self).step_value() <= i32::MAX,
        ensures
            final(self).count_value() == old(self).count_value() + old(self).step_value(),
            final(self).step_value() == old(self).step_value(),
    {
        self.count = self.count + self.step;
    }

    pub fn get(&self) -> (r: i32)
        ensures
            r == self.count_value(),
    {
        self.count
    }
}

/// A counter as a plain value: each step makes a new state.
#[derive(Debug, Clone, PartialEq)]
pub struct CounterState {
    pub count: i32,
    pub step: i32,
}

/// The state of a fresh counter with the given step.
pub fn counter_new(step: i32) -> (s: CounterState)
    ensures
        s.count == 0,
        s.step == step,
{
    CounterState { count: 0, step }
}

/// The state after one increment; `state` itself is left as it is.
pub fn counter_increment(state: &CounterState) -> (s: CounterState)
    requires
        i32::MIN <= state.count + state.step <= i32::MAX,
    ensures
        s.count == state.count + state.step,
        s.step == state.step,
{
    CounterState { count: state.count + state.step, step: state.step }
}

// ─── Observer ──────────────────────────────────────────────────────────

/// Listeners that are all called, in the order they subscribed, on each event.
pub struct EventSource<F: Fn(i32)> {
    listeners: Vec<F>,
}

impl<F: Fn(i32)> EventSource<F> {
    /// The listeners, in subscription order.
    pub closed spec fn subscribers(self) -> Seq<F> {
        self.listeners@
    }

    pub fn new() -> (e: Self)
        ensures
            e.subscribers() == Seq::<F>::empty(),
    {
        EventSource { listeners: Vec::new() }
    }

    /// Adds a listener after those already there.
    pub fn subscribe(&mut self, listener: F)
        ensures
            final(self).subscribers() == old(self).subscribers().push(listener),
    {
        self.listeners.push(listener);
    }

    /// Calls every listener with `value`, in subscription order.
    pub fn emit(&self, value: i32)
        requires
            forall|i: int| 0 <= i < self.subscribers().len() ==> #[trigger] self.subscribers()[i].requires((value,)),
        ensures
            forall|i: int| 0 <= i < self.subscribers().len() ==> #[trigger] self.subscribers()[i].ensures((value,), ()),
    {
        let mut i: usize = 0;
        while i < self.listeners.len()
            invariant
                i <= self.subscribers().len(),
                self.subscribers() == self.listeners@,
                forall|k: int| 0 <= k < self.subscribers().len() ==> #[trigger] self.subscribers()[k].requires((value,)),
                forall|k: int| 0 <= k < i ==> #[trigger] self.subscribers()[k].ensures((value,), ()),
            decreases self.listeners.len() - i,
        {
            (self.listeners[i])(value);
            i += 1;
        }
    }
}

impl<F: Fn(i32)> Default for EventSource<F> {
    fn default() -> (e: Self)
        ensures
            e.subscribers() == Seq::<F>::empty(),
    {
        Self::new()
    }
}

/// Runs `handler` on each event in order and collects what it returns.
pub fn process_events<F>(events: &[i32], handler: F) -> (r: Vec<String>)
    where
        F: Fn(i32) -> String,
    requires
        forall|i: int| 0 <= i < events@.len() ==> handler.requires((#[trigger] events@[i],)),
    ensures
        r@.len() == events@.len(),
        forall|i: int| 0 <= i < events@.len() ==> handler.ensures((events@[i],), #[trigger] r@[i]),
{
    let mut r: Vec<String> = Vec::new();
    let mut i: usize = 0;
    while i < events.len()
        invariant
            i <= events@.len(),
            forall|k: int| 0 <= k < events@.len() ==> handler.requires((#[trigger] events@[k],)),
            r@.len() == i,
            forall|k: int| 0 <= k < i ==> handler.ensures((events@[k],), #[trigger] r@[k]),
        decreases events.len() - i,
    {
        let s = handler(events[i]);
        r.push(s);
        i += 1;
    }
    r
}

// ─── Composition in place of inheritance ───────────────────────────────

/// The function that applies `f` and then `g`.
pub fn compose<A, B, C, F, G>(f: F, g: G) -> (h: impl Fn(A) -> C)
    where
        F: Fn(A) -> B,
        G: Fn(B) -> C,
    ensures
        forall|a: A| f.requires((a,)) && (forall|b: B| f.ensures((a,), b) ==> #[trigger] g.requires((b,)))
            ==> #[trigger] h.requires((a,)),
        forall|a: A, c: C| h.ensures((a,), c) ==> exists|b: B| #[trigger] f.ensures((a,), b) && g.ensures((b,), c),
{
    move |x: A| -> (c: C)
        requires
            f.requires((x,)),
            forall|b: B| f.ensures((x,), b) ==> #[trigger] g.requires((b,)),
        ensures
            exists|b: B| #[trigger] f.ensures((x,), b) && g.ensures((b,), c),
    {
        let b = f(x);
        g(b)
    }
}

pub fn double(x: i32) -> (r: i32)
    requires
        i32::MIN <= 2 * x <= i32::MAX,
    ensures
        r == 2 * x,
{
    x * 2
}

pub fn add_one(x: i32) -> (r: i32)
    requires
        x < i32::MAX,
    ensures
        r == x + 1,
{
    x + 1
}

pub fn square(x: i32) -> (r: i32)
    requires
        x * x <= i32::MAX,
    ensures
        r == x * x,
{
    proof {
        if x < 0 {
            vstd::arithmetic::mul::lemma_mul_cancels_negatives(x as int, x as int);
            vstd::arithmetic::mul::lemma_mul_nonnegative(-x, -x);
        } else {
            vstd::arithmetic::mul::lemma_mul_nonnegative(x as int, x as int);
        }
    }
    x * x
}

} // verus!
