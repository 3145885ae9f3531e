//! Recursion: naive and accumulator-passing recursion, an iterator in place
//! of recursion, mutual recursion, and recursion over trees.
use vstd::prelude::*;
use crate::basics::fact;

verus! {

/// The Fibonacci numbers: 0, 1, 1, 2, 3, 5, ...
pub open spec fn fib(n: nat) -> nat
    decreases n,
{
    if n == 0 { 0 } else if n == 1 { 1 } else { fib((n - 2) as nat) + fib((n - 1) as nat) }
}

/// The Fibonacci numbers never decrease.
pub proof fn lemma_fib_monotonic(i: nat, j: nat)
    requires
        i <= j,
    ensures
        fib(i) <= fib(j),
    decreases j - i,
{
    if j < 2 {
    } else if i == j {
    } else if i == j - 1 {
    } else {
        lemma_fib_monotonic(i, (j - 1) as nat);
        lemma_fib_monotonic(i, (j - 2) as nat);
    }
}

/// `i` steps of `(a, b) ↦ (b, a + b)`, then the first of the pair.
pub open spec fn fib_steps(a: int, b: int, i: nat) -> int
    decreases i,
{
    if i == 0 { a } else { fib_steps(b, a + b, (i - 1) as nat) }
}

/// Stepping from consecutive Fibonacci numbers stays on the sequence.
proof fn lemma_fib_steps(k: nat, i: nat)
    ensures
        fib_steps(fib(k) as int, fib(k + 1) as int, i) == fib(k + i),
    decreases i,
{
    if i > 0 {
        assert(fib(k + 2) == fib(k) + fib(k + 1));
        lemma_fib_steps(k + 1, (i - 1) as nat);
    }
}

/// Every Fibonacci number up to `fib(93)` fits in a `u64`, so
/// [`fib_naive`] and [`fib_tail`] accept every `n <= 92` (and `fib_naive`
/// also `93`) and both give `fib(n)` there.
pub proof fn law_fib_fits_u64(n: nat)
    requires
        n <= 93,
    ensures
        fib(n) <= u64::MAX,
        fib(93) == 12200160415121876738,
{
    lemma_fib_steps(0, 93);
    reveal_with_fuel(fib_steps, 95);
    assert(fib_steps(0, 1, 93) == 12200160415121876738);
    lemma_fib_monotonic(n, 93);
}

/// `fib(n)`, straight from the recurrence (exponential time).
pub fn fib_naive(n: u64) -> (r: u64)
    requires
        fib(n as nat) <= u64::MAX,
    ensures
        r == fib(n as nat),
    decreases n,
{
    if n == 0 {
        0
    } else if n == 1 {
        1
    } else {
        proof {
            lemma_fib_monotonic((n - 1) as nat, n as nat);
            lemma_fib_monotonic((n - 2) as nat, n as nat);
        }
        fib_naive(n - 1) + fib_naive(n - 2)
    }
}

fn fib_go(n: u64, a: u64, b: u64, Ghost(k): Ghost<nat>) -> (r: u64)
    requires
        a == fib(k),
        b == fib(k + 1),
        n == 0 || fib(k + n as nat + 1) <= u64::MAX,
    ensures
        r == fib(k + n as nat),
    decreases n,
{
    if n == 0 {
        a
    } else {
        proof {
            lemma_fib_monotonic(k + 2, k + n as nat + 1);
        }
        fib_go(n - 1, b, a + b, Ghost(k + 1))
    }
}

/// `fib(n)` with two accumulators, one step per call. Each step also computes
/// the next number, so `fib(n + 1)` must fit as well (for `n > 0`).
pub fn fib_tail(n: u64) -> (r: u64)
    requires
        n == 0 || fib(n as nat + 1) <= u64::MAX,
    ensures
        r == fib(n as nat),
{
    fib_go(n, 0, 1, Ghost(0))
}

fn fact_go(n: u64, acc: u64) -> (r: u64)
    requires
        acc * fact(n as nat) <= u64::MAX,
    ensures
        r == acc * fact(n as nat),
    decreases n,
{
    if n == 0 || n == 1 {
        assert(fact(1) == 1 * fact(0));
        assert(fact(n as nat) == 1);
        assert(acc * fact(n as nat) == acc) by (nonlinear_arith) requires fact(n as nat) == 1;
        acc
    } else {
        proof { lemma_fact_positive((n - 1) as nat); }
        assert(n * acc * fact((n - 1) as nat) == acc * fact(n as nat)) by (nonlinear_arith)
            requires fact(n as nat) == n * fact((n - 1) as nat);
        assert(n * acc <= acc * fact(n as nat)) by (nonlinear_arith)
            requires fact(n as nat) == n * fact((n - 1) as nat), fact((n - 1) as nat) >= 1, n >= 2;
        fact_go(n - 1, n * acc)
    }
}

pub proof fn lemma_fact_positive(n: nat)
    ensures
        fact(n) >= 1,
    decreases n,
{
    if n > 0 {
        lemma_fact_positive((n - 1) as nat);
        assert(n * fact((n - 1) as nat) >= 1) by (nonlinear_arith)
            requires n >= 1, fact((n - 1) as nat) >= 1;
    }
}

/// `n!` with an accumulator.
pub fn factorial_tail(n: u64) -> (r: u64)
    requires
        fact(n as nat) <= u64::MAX,
    ensures
        r == fact(n as nat),
{
    proof {
        lemma_fact_positive(n as nat);
        if n >= 1 { lemma_fact_positive((n - 1) as nat); }
    }
    fact_go(n, 1)
}

/// The Fibonacci numbers `0, 1, 1, 2, ...`, one per call of `next`.
pub struct FibIter {
    a: u64,
    b: u64,
    produced: Ghost<nat>,
}

impl FibIter {
    #[verifier::type_invariant]
    spec fn consecutive(self) -> bool {
        self.a == fib(self.produced@) && self.b == fib(self.produced@ + 1)
    }

    /// How many numbers have been produced so far.
    pub closed spec fn position(&self) -> nat {
        self.produced@
    }

    /// Starts at `fib(0)`.
    pub fn new() -> (it: Self)
        ensures
            it.position() == 0,
    {
        FibIter { a: 0, b: 1, produced: Ghost(0) }
    }

    /// Whether the next call of `next` can compute its successor state in a `u64`.
    pub fn can_advance(&self) -> (b: bool)
        ensures
            b == (fib(self.position() + 2) <= u64::MAX),
    {
        proof { use_type_invariant(self); }
        self.a.checked_add(self.b).is_some()
    }

    /// Yields `fib(k)` on the call numbered `k`.
    pub fn next(&mut self) -> (r: Option<u64>)
        requires
            fib(old(self).position() + 2) <= u64::MAX,
        ensures
            r == Some(fib(old(self).position()) as u64),
            final(self).position() == old(self).position() + 1,
    {
        proof { use_type_invariant(&*self); }
        let result = self.a;
        let next = self.a + self.b;
        let ghost k = self.produced@;
        *self = FibIter { a: self.b, b: next, produced: Ghost(k + 1) };
        Some(result)
    }
}

impl Default for FibIter {
    fn default() -> (it: Self)
        ensures
            it.position() == 0,
    {
        FibIter::new()
    }
}

/// `n` is even, decided by mutual recursion with [`is_odd`].
pub fn is_even(n: u32) -> (b: bool)
    ensures
        b == (n % 2 == 0),
    decreases n, 1u32,
{
    if n == 0 { true } else { is_odd(n - 1) }
}

/// `n` is odd, decided by mutual recursion with [`is_even`].
pub fn is_odd(n: u32) -> (b: bool)
    ensures
        b == (n % 2 == 1),
    decreases n, 0u32,
{
    if n == 0 { false } else { is_even(n - 1) }
}

/// A binary tree with values at the nodes.
#[derive(Debug)]
pub enum Tree<T> {
    Leaf,
    Node(T, Box<Tree<T>>, Box<Tree<T>>),
}

impl<T> Tree<T> {
    /// The number of nodes.
    pub open spec fn node_count(&self) -> nat
        decreases self,
    {
        match self {
            Tree::Leaf => 0,
            Tree::Node(_, l, r) => 1 + (**l).node_count() + (**r).node_count(),
        }
    }

    /// The number of nodes on the longest root-to-leaf path.
    pub open spec fn levels(&self) -> nat
        decreases self,
    {
        match self {
            Tree::Leaf => 0,
            Tree::Node(_, l, r) => {
                let a = (**l).levels();
                let b = (**r).levels();
                1 + if a >= b { a } else { b }
            }
        }
    }
}

proof fn lemma_levels_le_count<T>(t: &Tree<T>)
    ensures
        t.levels() <= t.node_count(),
    decreases t,
{
    match t {
        Tree::Leaf => {}
        Tree::Node(_, l, r) => {
            lemma_levels_le_count(&**l);
            lemma_levels_le_count(&**r);
        }
    }
}

impl<T: Clone> Tree<T> {
    /// The length of the longest root-to-leaf path.
    pub fn depth(&self) -> (d: usize)
        requires
            self.node_count() <= usize::MAX,
        ensures
            d == self.levels(),
        decreases self,
    {
        proof { lemma_levels_le_count(self); }
        match self {
            Tree::Leaf => 0,
            Tree::Node(_, left, right) => {
                let a = (**left).depth();
                let b = (**right).depth();
                1 + if a >= b { a } else { b }
            }
        }
    }

    /// The number of nodes.
    pub fn count(&self) -> (n: usize)
        requires
            self.node_count() <= usize::MAX,
        ensures
            n == self.node_count(),
        decreases self,
    {
        match self {
            Tree::Leaf => 0,
            Tree::Node(_, left, right) => 1 + (**left).count() + (**right).count(),
        }
    }
}

} // verus!
