//! Immutability and ownership: value transformations, borrowing pure functions,
//! constants, non-destructive struct updates, and a persistent list.
use vstd::prelude::*;
use std::rc::Rc;
use crate::seqs::{clones_of, lemma_clones_of_prepend, sum_map, i32_running_fits, lemma_sum_map_take_succ, lemma_filter_take_succ, lemma_take_full};
use crate::text::{char_upper, upper_chars, upper_text, upper_string, push_chars};
use vstd::string::*;

verus! {

/// The default connection timeout in seconds.
pub const DEFAULT_TIMEOUT_SECS: u64 = 30;

/// The application's name.
pub const APP_NAME: &'static str = "FP Study";

/// The first six primes.
pub const SMALL_PRIMES: [u32; 6] = [2, 3, 5, 7, 11, 13];

/// The identity contribution of an element to a sum.
pub open spec fn id_part(x: i32) -> int {
    x as int
}

/// [`id_part`] as a function value.
pub open spec fn id_fn() -> spec_fn(i32) -> int {
    |x: i32| id_part(x)
}

/// The sum of a sequence, element by element.
pub open spec fn total(s: Seq<i32>) -> int {
    sum_map(s, id_fn())
}

/// Sum with a mutable accumulator.
pub fn sum_imperative(values: &[i32]) -> (r: i32)
    requires
        i32_running_fits(values@, id_fn()),
    ensures
        r == total(values@),
{
    let ghost f = id_fn();
    let mut acc: i32 = 0;
    let mut i: usize = 0;
    while i < values.len()
        invariant
            f == id_fn(),
            i <= values@.len(),
            i32_running_fits(values@, f),
            acc == sum_map(values@.take(i as int), f),
        decreases values.len() - i,
    {
        proof {
            lemma_sum_map_take_succ(values@, f, i as int);
            assert(i32::MIN <= sum_map(values@.take(i + 1), f) <= i32::MAX);
        }
        acc = acc + values[i];
        i += 1;
    }
    proof { lemma_take_full(values@); }
    acc
}

/// Sum as a fold, without a mutable binding in the caller's view; agrees with
/// [`sum_imperative`].
pub fn sum_functional(values: &[i32]) -> (r: i32)
    requires
        i32_running_fits(values@, id_fn()),
    ensures
        r == total(values@),
{
    sum_imperative(values)
}

/// `s` with its first character uppercased (per `char::to_uppercase`).
pub open spec fn capitalized(s: Seq<char>) -> Seq<char> {
    if s.len() == 0 { Seq::empty() } else { char_upper(s[0]) + s.subrange(1, s.len() as int) }
}

/// Takes ownership of `s` and returns it with its first character uppercased.
pub fn capitalize(s: String) -> (r: String)
    ensures
        r@ == capitalized(s@),
{
    let n = s.as_str().unicode_len();
    if n == 0 {
        return String::new();
    }
    let first = s.as_str().get_char(0);
    let rest = s.as_str().substring_char(1, n);
    let mut r = String::new();
    let up = upper_chars(first);
    push_chars(&mut r, &up);
    r.append(rest);
    r
}

/// `s` followed by `!`.
pub fn add_exclamation(s: String) -> (r: String)
    ensures
        r@ == s@ + seq!['!'],
{
    let r = s.concat("!");
    proof { reveal_strlit("!"); }
    r
}

/// `s` in uppercase.
pub fn to_uppercase_owned(s: String) -> (r: String)
    ensures
        r@ == upper_text(s@),
{
    upper_string(s.as_str())
}

/// Twice the element when it is positive, else nothing.
pub open spec fn pos_double_part(x: i32) -> int {
    if x > 0 { 2 * x } else { 0 }
}

/// [`pos_double_part`] as a function value.
pub open spec fn pos_double_fn() -> spec_fn(i32) -> int {
    |x: i32| pos_double_part(x)
}

/// The sum of twice every positive element.
pub fn sum_positive_doubled(values: &[i32]) -> (r: i32)
    requires
        forall|i: int| 0 <= i < values@.len() ==> #[trigger] values@[i] <= i32::MAX / 2,
        i32_running_fits(values@, pos_double_fn()),
    ensures
        r == sum_map(values@, pos_double_fn()),
{
    let ghost f = pos_double_fn();
    let mut acc: i32 = 0;
    let mut i: usize = 0;
    while i < values.len()
        invariant
            f == pos_double_fn(),
            i <= values@.len(),
            forall|j: int| 0 <= j < values@.len() ==> #[trigger] values@[j] <= i32::MAX / 2,
            i32_running_fits(values@, f),
            acc == sum_map(values@.take(i as int), f),
        decreases values.len() - i,
    {
        proof {
            lemma_sum_map_take_succ(values@, f, i as int);
            assert(i32::MIN <= sum_map(values@.take(i + 1), f) <= i32::MAX);
        }
        let v = values[i];
        if v > 0 {
            acc = acc + v * 2;
        }
        i += 1;
    }
    proof { lemma_take_full(values@); }
    acc
}

/// The sum of a borrowed slice; the slice is not changed.
pub fn sum(values: &[i32]) -> (r: i32)
    requires
        i32_running_fits(values@, id_fn()),
    ensures
        r == total(values@),
{
    sum_imperative(values)
}

/// The largest element, or `None` for an empty slice.
pub fn max_value(values: &[i32]) -> (r: Option<i32>)
    ensures
        values@.len() == 0 <==> r is None,
        r matches Some(m) ==> values@.contains(m) && forall|i: int| 0 <= i < values@.len() ==> values@[i] <= m,
{
    if values.len() == 0 {
        return None;
    }
    let mut m = values[0];
    let mut i: usize = 1;
    assert(values@.subrange(0, 1)[0] == m);
    while i < values.len()
        invariant
            1 <= i <= values@.len(),
            values@.subrange(0, i as int).contains(m),
            forall|j: int| 0 <= j < i ==> values@[j] <= m,
        decreases values.len() - i,
    {
        if values[i] > m {
            m = values[i];
            assert(values@.subrange(0, i + 1)[i as int] == m);
        } else {
            proof {
                let k = choose|k: int| 0 <= k < i && values@.subrange(0, i as int)[k] == m;
                assert(values@.subrange(0, i + 1)[k] == m);
            }
        }
        i += 1;
    }
    assert(values@.subrange(0, values@.len() as int) =~= values@);
    Some(m)
}

/// A sequence that reads the same forwards and backwards.
pub open spec fn palindrome(s: Seq<char>) -> bool {
    s == s.reverse()
}

/// Whether `s` reads the same backwards, comparing every character with its mirror.
pub fn is_palindrome(s: &str) -> (r: bool)
    ensures
        r == palindrome(s@),
{
    let chars = crate::text::chars_of(s);
    let len = chars.len();
    let mut i: usize = 0;
    while i < len
        invariant
            len == chars@.len(),
            chars@ == s@,
            i <= len,
            forall|j: int| 0 <= j < i ==> #[trigger] chars@[j] == chars@[len - 1 - j],
        decreases len - i,
    {
        if chars[i] != chars[len - 1 - i] {
            assert(chars@.reverse()[i as int] == chars@[len - 1 - i]);
            return false;
        }
        i += 1;
    }
    assert(chars@ =~= chars@.reverse());
    true
}

/// Whether a score passes (60 or more).
pub open spec fn passing(s: u32) -> bool {
    s >= 60
}

/// The passing scores, each with 5 bonus points, in order; the input is unchanged.
pub fn process_scores(scores: &[u32]) -> (r: Vec<u32>)
    requires
        forall|i: int| 0 <= i < scores@.len() && passing(#[trigger] scores@[i]) ==> scores@[i] + 5 <= u32::MAX,
    ensures
        r@ == scores@.filter(|s: u32| passing(s)).map_values(|s: u32| (s + 5) as u32),
{
    let ghost p = |s: u32| passing(s);
    let ghost g = |s: u32| (s + 5) as u32;
    let mut r: Vec<u32> = Vec::new();
    let mut i: usize = 0;
    while i < scores.len()
        invariant
            p == (|s: u32| passing(s)),
            g == (|s: u32| (s + 5) as u32),
            i <= scores@.len(),
            forall|j: int| 0 <= j < scores@.len() && passing(#[trigger] scores@[j]) ==> scores@[j] + 5 <= u32::MAX,
            r@ == scores@.take(i as int).filter(p).map_values(g),
        decreases scores.len() - i,
    {
        proof { lemma_filter_take_succ(scores@, p, i as int); }
        let s = scores[i];
        if s >= 60 {
            r.push(s + 5);
            assert(r@ =~= scores@.take(i + 1).filter(p).map_values(g));
        }
        i += 1;
    }
    proof { lemma_take_full(scores@); }
    r
}

/// Connection settings; "changes" build new values with the `with_*` methods.
#[derive(Debug, Clone, PartialEq)]
pub struct Config {
    pub host: String,
    pub port: u16,
    pub max_connections: u32,
    pub timeout_secs: u64,
}

impl Config {
    /// The defaults: `localhost:8080`, 100 connections, a 30 s timeout.
    pub fn new() -> (c: Self)
        ensures
            c.host@ == "localhost"@,
            c.port == 8080,
            c.max_connections == 100,
            c.timeout_secs == DEFAULT_TIMEOUT_SECS,
    {
        Config {
            host: String::from_str("localhost"),
            port: 8080,
            max_connections: 100,
            timeout_secs: DEFAULT_TIMEOUT_SECS,
        }
    }

    /// A copy with another port; `self` is unchanged.
    pub fn with_port(&self, port: u16) -> (c: Self)
        ensures
            c.port == port,
            c.host@ == self.host@,
            c.max_connections == self.max_connections,
            c.timeout_secs == self.timeout_secs,
    {
        Config { port, host: self.host.clone(), max_connections: self.max_connections, timeout_secs: self.timeout_secs }
    }

    /// A copy with another host.
    pub fn with_host(&self, host: &str) -> (c: Self)
        ensures
            c.host@ == host@,
            c.port == self.port,
            c.max_connections == self.max_connections,
            c.timeout_secs == self.timeout_secs,
    {
        Config { host: String::from_str(host), port: self.port, max_connections: self.max_connections, timeout_secs: self.timeout_secs }
    }

    /// A copy with another connection limit.
    pub fn with_max_connections(&self, max_connections: u32) -> (c: Self)
        ensures
            c.max_connections == max_connections,
            c.host@ == self.host@,
            c.port == self.port,
            c.timeout_secs == self.timeout_secs,
    {
        Config { max_connections, host: self.host.clone(), port: self.port, timeout_secs: self.timeout_secs }
    }

    /// A copy with another timeout.
    pub fn with_timeout(&self, timeout_secs: u64) -> (c: Self)
        ensures
            c.timeout_secs == timeout_secs,
            c.host@ == self.host@,
            c.port == self.port,
            c.max_connections == self.max_connections,
    {
        Config { timeout_secs, host: self.host.clone(), port: self.port, max_connections: self.max_connections }
    }
}

impl Default for Config {
    fn default() -> (c: Self)
        ensures
            c.host@ == "localhost"@,
            c.port == 8080,
            c.max_connections == 100,
            c.timeout_secs == DEFAULT_TIMEOUT_SECS,
    {
        Config::new()
    }
}

/// A persistent singly linked list whose tails are shared through `Rc`.
#[derive(Debug, Clone, PartialEq)]
pub enum PersistentList<T> {
    Nil,
    Cons(T, Rc<PersistentList<T>>),
}

impl<T> PersistentList<T> {
    /// The elements, front first.
    pub open spec fn view(&self) -> Seq<T>
        decreases self,
    {
        match self {
            PersistentList::Nil => Seq::empty(),
            PersistentList::Cons(v, tail) => seq![*v] + (**tail).view(),
        }
    }
}

impl<T: Clone> PersistentList<T> {
    /// The empty list.
    pub fn empty() -> (r: Rc<Self>)
        ensures
            (*r).view() == Seq::<T>::empty(),
    {
        Rc::new(PersistentList::Nil)
    }

    /// A new list with `value` in front of `tail`, which is shared, not copied.
    pub fn cons(value: T, tail: Rc<Self>) -> (r: Rc<Self>)
        ensures
            (*r).view() == seq![value] + (*tail).view(),
            *r == PersistentList::Cons(value, tail),
    {
        Rc::new(PersistentList::Cons(value, tail))
    }

    /// The first element, if any.
    pub fn head(&self) -> (r: Option<&T>)
        ensures
            self.view().len() == 0 <==> r is None,
            r matches Some(h) ==> *h == self.view()[0],
    {
        match self {
            PersistentList::Cons(v, _) => Some(v),
            PersistentList::Nil => None,
        }
    }

    /// The shared rest of the list, if the list is not empty.
    pub fn tail_ref(&self) -> (r: Option<Rc<Self>>)
        ensures
            self.view().len() == 0 <==> r is None,
            r matches Some(t) ==> (*t).view() == self.view().drop_first(),
            self matches PersistentList::Cons(_, t) ==> r == Some(*t),
    {
        match self {
            PersistentList::Cons(_, tail) => {
                let t = Rc::clone(tail);
                assert(self.view().drop_first() =~= (**tail).view());
                Some(t)
            }
            PersistentList::Nil => None,
        }
    }

    /// The number of elements.
    pub fn len(&self) -> (n: usize)
        requires
            self.view().len() <= usize::MAX,
        ensures
            n == self.view().len(),
        decreases self,
    {
        match self {
            PersistentList::Nil => 0,
            PersistentList::Cons(_, tail) => 1 + (**tail).len(),
        }
    }

    /// Whether the list is empty.
    pub fn is_empty(&self) -> (b: bool)
        ensures
            b == (self.view().len() == 0),
    {
        match self {
            PersistentList::Nil => true,
            PersistentList::Cons(_, _) => false,
        }
    }

    /// The elements as a vector (clones), front first.
    pub fn to_vec(&self) -> (r: Vec<T>)
        ensures
            clones_of(self.view(), r@),
        decreases self,
    {
        match self {
            PersistentList::Nil => Vec::new(),
            PersistentList::Cons(v, tail) => {
                let mut r: Vec<T> = Vec::new();
                r.push(v.clone());
                let mut rest = (**tail).to_vec();
                r.append(&mut rest);
                r
            }
        }
    }
}

/// Consing `x` onto a shared list gives `x` in front of that list's vector,
/// while the shared list itself is unchanged; where cloning gives back an
/// equal value, each vector is exactly its list's elements.
pub proof fn law_persistent_cons_to_vec<T: Clone>(t: PersistentList<T>, x: T, v0: Seq<T>, v1: Seq<T>)
    requires
        clones_of(t.view(), v0),
        clones_of(PersistentList::Cons(x, Rc::new(t)).view(), v1),
        forall|a: T, b: T| cloned::<T>(a, b) ==> a == b,
    ensures
        v0 == t.view(),
        v1 == seq![x] + v0,
        v1.len() == v0.len() + 1,
{
    lemma_clones_of_prepend(x, t.view(), v0, v1);
}

/// Push onto a persistent stack: a new stack whose rest is `stack`.
pub fn stack_push<T: Clone>(stack: Rc<PersistentList<T>>, value: T) -> (r: Rc<PersistentList<T>>)
    ensures
        (*r).view() == seq![value] + (*stack).view(),
{
    PersistentList::cons(value, stack)
}

/// Pop from a persistent stack: the top and the (shared) rest, or `None` when empty.
pub fn stack_pop<T: Clone>(stack: &Rc<PersistentList<T>>) -> (r: Option<(T, Rc<PersistentList<T>>)>)
    ensures
        (**stack).view().len() == 0 <==> r is None,
        r matches Some(p) ==> cloned::<T>((**stack).view()[0], p.0) && (*p.1).view() == (**stack).view().drop_first(),
{
    match &**stack {
        PersistentList::Nil => None,
        PersistentList::Cons(v, tail) => {
            assert((**stack).view().drop_first() =~= (**tail).view());
            Some((v.clone(), Rc::clone(tail)))
        }
    }
}

} // verus!
