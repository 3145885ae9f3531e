//! Pure functions: the result depends on the arguments alone.
use vstd::prelude::*;
use crate::text::{upper_string, upper_text};
use crate::recursion::fib;

verus! {

/// `a + b`; the sum must fit in an `i32`.
pub fn add(a: i32, b: i32) -> (r: i32)
    requires
        i32::MIN <= a + b <= i32::MAX,
    ensures
        r == a + b,
{
    a + b
}

/// `s` uppercased character by character.
pub fn to_uppercase(s: &str) -> (r: String)
    ensures
        r@ == upper_text(s@),
{
    upper_string(s)
}

/// The `n`-th Fibonacci number by the naive recursion; it must fit in a `u64`.
pub fn fibonacci(n: u64) -> (r: u64)
    requires
        fib(n as nat) <= u64::MAX,
    ensures
        r == fib(n as nat),
    decreases n,
{
    if n == 0 {
        0
    } else if n == 1 {
        1
    } else {
        proof {
            crate::recursion::lemma_fib_monotonic((n - 1) as nat, n as nat);
        }
        fibonacci(n - 1) + fibonacci(n - 2)
    }
}

} // verus!
