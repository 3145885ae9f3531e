//! Iterator-style pipelines over slices.
use vstd::prelude::*;
use vstd::string::*;
use crate::seqs::{sum_map, i32_running_fits, lemma_sum_map_take_succ, lemma_take_full};
use crate::text::{upper_string, upper_text};
use crate::composition::texts;
use crate::iterators::inner_views;
use crate::recursion::fib;

verus! {

/// What an element contributes: its square when even, nothing when odd.
pub open spec fn even_square(x: i32) -> int {
    if x % 2 == 0 { x * x } else { 0 }
}

/// [`even_square`] as a function value.
pub open spec fn even_square_fn() -> spec_fn(i32) -> int {
    |x: i32| even_square(x)
}

/// The sum of the squares of the even elements; each such square and every
/// running total must fit in an `i32`.
pub fn sum_of_squared_evens(numbers: &[i32]) -> (r: i32)
    requires
        forall|i: int| 0 <= i < numbers@.len() ==> #[trigger] even_square(numbers@[i]) <= i32::MAX,
        i32_running_fits(numbers@, even_square_fn()),
    ensures
        r == sum_map(numbers@, even_square_fn()),
{
    let ghost f = even_square_fn();
    let mut acc: i32 = 0;
    let mut i: usize = 0;
    while i < numbers.len()
        invariant
            f == even_square_fn(),
            i <= numbers@.len(),
            forall|k: int| 0 <= k < numbers@.len() ==> #[trigger] even_square(numbers@[k]) <= i32::MAX,
            i32_running_fits(numbers@, f),
            acc == sum_map(numbers@.take(i as int), f),
        decreases numbers.len() - i,
    {
        let x = numbers[i];
        proof {
            lemma_sum_map_take_succ(numbers@, f, i as int);
            assert(i32::MIN <= sum_map(numbers@.take(i + 1), f) <= i32::MAX);
            assert(even_square(x) <= i32::MAX);
        }
        if x % 2 == 0 {
            proof {
                if x < 0 {
                    vstd::arithmetic::mul::lemma_mul_cancels_negatives(x as int, x as int);
                    vstd::arithmetic::mul::lemma_mul_nonnegative(-x, -x);
                } else {
                    vstd::arithmetic::mul::lemma_mul_nonnegative(x as int, x as int);
                }
            }
            acc = acc + x * x;
        }
        i += 1;
    }
    proof { lemma_take_full(numbers@); }
    acc
}

/// The words longer than three bytes, uppercased, in order.
pub open spec fn long_words_upper(words: Seq<&str>) -> Seq<Seq<char>>
    decreases words.len(),
{
    if words.len() == 0 {
        Seq::empty()
    } else {
        let rest = long_words_upper(words.drop_last());
        let w = words.last();
        if w.len() > 3 { rest.push(upper_text(w@)) } else { rest }
    }
}

/// Keeps the words of more than three bytes and uppercases them.
pub fn process_words(words: &[&str]) -> (r: Vec<String>)
    ensures
        texts(r@) == long_words_upper(words@),
{
    let mut r: Vec<String> = Vec::new();
    let mut i: usize = 0;
    while i < words.len()
        invariant
            i <= words@.len(),
            texts(r@) == long_words_upper(words@.take(i as int)),
        decreases words.len() - i,
    {
        let w = words[i];
        assert(words@.take(i + 1).drop_last() =~= words@.take(i as int));
        if w.len() > 3 {
            let u = upper_string(w);
            r.push(u);
            assert(texts(r@) =~= long_words_upper(words@.take(i as int)).push(upper_text(w@)));
        }
        i += 1;
    }
    proof { lemma_take_full(words@); }
    r
}

/// Each element doubled.
pub open spec fn doubled_i32(s: Seq<i32>) -> Seq<int> {
    s.map_values(|x: i32| 2 * x)
}

/// The doubled elements of each inner vector, one vector after another;
/// every doubled element must fit in an `i32`.
pub fn flatten_and_double(nested: &[Vec<i32>]) -> (r: Vec<i32>)
    requires
        forall|i: int, j: int| 0 <= i < nested@.len() && 0 <= j < nested@[i]@.len()
            ==> i32::MIN <= 2 * #[trigger] nested@[i]@[j] <= i32::MAX,
    ensures
        r@.map_values(|x: i32| x as int) == inner_views(nested@).map_values(|v: Seq<i32>| doubled_i32(v)).flatten_alt(),
{
    let ghost target = inner_views(nested@).map_values(|v: Seq<i32>| doubled_i32(v));
    let mut r: Vec<i32> = Vec::new();
    let mut i: usize = 0;
    while i < nested.len()
        invariant
            i <= nested@.len(),
            target == inner_views(nested@).map_values(|v: Seq<i32>| doubled_i32(v)),
            forall|a: int, b: int| 0 <= a < nested@.len() && 0 <= b < nested@[a]@.len()
                ==> i32::MIN <= 2 * #[trigger] nested@[a]@[b] <= i32::MAX,
            r@.map_values(|x: i32| x as int) == target.take(i as int).flatten_alt(),
        decreases nested.len() - i,
    {
        let ghost before = r@.map_values(|x: i32| x as int);
        let mut j: usize = 0;
        while j < nested[i].len()
            invariant
                i < nested@.len(),
                j <= nested@[i as int]@.len(),
                forall|a: int, b: int| 0 <= a < nested@.len() && 0 <= b < nested@[a]@.len()
                    ==> i32::MIN <= 2 * #[trigger] nested@[a]@[b] <= i32::MAX,
                r@.map_values(|x: i32| x as int) == before + doubled_i32(nested@[i as int]@).take(j as int),
            decreases nested@[i as int]@.len() - j,
        {
            let x = nested[i][j];
            assert(i32::MIN <= 2 * nested@[i as int]@[j as int] <= i32::MAX);
            let ghost old_r = r@;
            r.push(x * 2);
            proof {
                let v = nested@[i as int]@;
                assert(r@.map_values(|y: i32| y as int) =~= old_r.map_values(|y: i32| y as int).push(2 * x));
                assert(doubled_i32(v).take(j + 1) =~= doubled_i32(v).take(j as int).push(2 * v[j as int]));
            }
            assert(r@.map_values(|x: i32| x as int) =~= before + doubled_i32(nested@[i as int]@).take(j + 1));
            j += 1;
        }
        assert(doubled_i32(nested@[i as int]@).take(j as int) =~= doubled_i32(nested@[i as int]@));
        assert(target.take(i + 1).drop_last() =~= target.take(i as int));
        assert(target[i as int] == doubled_i32(nested@[i as int]@));
        i += 1;
    }
    assert(target.take(nested@.len() as int) =~= target);
    r
}

/// The Fibonacci numbers from `1, 1, 2, ...`, one per call of `next`.
pub struct Fibonacci {
    a: u64,
    b: u64,
    produced: Ghost<nat>,
}

impl Fibonacci {
    #[verifier::type_invariant]
    spec fn consecutive(self) -> bool {
        self.a == fib(self.produced@) && self.b == fib(self.produced@ + 1)
    }

    /// How many numbers have been produced so far.
    pub closed spec fn position(&self) -> nat {
        self.produced@
    }

    /// A generator whose first number is `1`.
    pub fn new() -> (f: Self)
        ensures
            f.position() == 0,
    {
        Fibonacci { a: 0, b: 1, produced: Ghost(0) }
    }

    /// Whether the next call of `next` can compute its successor state in a `u64`.
    pub fn can_advance(&self) -> (b: bool)
        ensures
            b == (fib(self.position() + 2) <= u64::MAX),
    {
        proof { use_type_invariant(self); }
        self.a.checked_add(self.b).is_some()
    }

    /// The next Fibonacci number, `fib(k + 1)` on the call numbered `k`.
    pub fn next(&mut self) -> (r: Option<u64>)
        requires
            fib(old(self).position() + 2) <= u64::MAX,
        ensures
            r == Some(fib(old(self).position() + 1) as u64),
            final(self).position() == old(self).position() + 1,
    {
        proof { use_type_invariant(&*self); }
        let following = self.a + self.b;
        let ghost k = self.produced@;
        *self = Fibonacci { a: self.b, b: following, produced: Ghost(k + 1) };
        Some(self.a)
    }
}

impl Default for Fibonacci {
    fn default() -> (f: Self)
        ensures
            f.position() == 0,
    {
        Self::new()
    }
}

} // verus!
