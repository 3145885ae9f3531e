//! Pure functions, referential transparency, and separating effects from logic.
use vstd::prelude::*;
use crate::seqs::{sum_map, i32_running_fits, lemma_sum_map_take_succ, lemma_filter_take_succ, lemma_take_full};
use crate::text::{nat_text, push_char, push_u64, chars_of};
use vstd::string::*;

verus! {

/// Adds two integers; the result is determined by the arguments alone.
pub fn add(x: i32, y: i32) -> (r: i32)
    requires
        i32::MIN <= x + y <= i32::MAX,
    ensures
        r == x + y,
{
    x + y
}

/// A new vector holding each element doubled; the input is left unchanged.
pub fn double_all(numbers: &[i32]) -> (r: Vec<i32>)
    requires
        forall|i: int| 0 <= i < numbers@.len() ==> i32::MIN <= 2 * #[trigger] numbers@[i] <= i32::MAX,
    ensures
        r@.len() == numbers@.len(),
        forall|i: int| 0 <= i < numbers@.len() ==> #[trigger] r@[i] == 2 * numbers@[i],
{
    let mut r: Vec<i32> = Vec::new();
    let mut i: usize = 0;
    while i < numbers.len()
        invariant
            i <= numbers@.len(),
            forall|j: int| 0 <= j < numbers@.len() ==> i32::MIN <= 2 * #[trigger] numbers@[j] <= i32::MAX,
            r@.len() == i,
            forall|j: int| 0 <= j < i ==> #[trigger] r@[j] == 2 * numbers@[j],
        decreases numbers.len() - i,
    {
        r.push(numbers[i] * 2);
        i += 1;
    }
    r
}

/// `n!`.
pub open spec fn fact(n: nat) -> nat
    decreases n,
{
    if n == 0 { 1 } else { n * fact((n - 1) as nat) }
}

/// `n!`, computed recursively.
pub fn factorial(n: u64) -> (r: u64)
    requires
        fact(n as nat) <= u64::MAX,
    ensures
        r == fact(n as nat),
    decreases n,
{
    if n == 0 {
        1
    } else {
        assert(fact((n - 1) as nat) <= fact(n as nat)) by (nonlinear_arith)
            requires
                n >= 1,
                fact(n as nat) == n * fact((n - 1) as nat),
        ;
        let rest = factorial(n - 1);
        n * rest
    }
}

/// The square of an integer.
pub fn square(x: i32) -> (r: i32)
    requires
        x * x <= i32::MAX,
    ensures
        r == x * x,
{
    assert(x * x >= 0) by (nonlinear_arith);
    x * x
}

/// The greeting `"[<timestamp>] Hello, <name>!"`; the time is passed in, not read.
pub fn greet(name: &str, timestamp: u64) -> (r: String)
    ensures
        r@ == seq!['['] + nat_text(timestamp as nat) + "] Hello, "@ + name@ + seq!['!'],
{
    let mut r = String::new();
    push_char(&mut r, '[');
    push_u64(&mut r, timestamp);
    r.append("] Hello, ");
    r.append(name);
    push_char(&mut r, '!');
    r
}

/// A sequence that reads the same forwards and backwards.
pub open spec fn palindrome(s: Seq<char>) -> bool {
    s == s.reverse()
}

/// Whether a character vector reads the same backwards, comparing the first
/// half with the reversed second half.
pub fn is_palindrome_chars(chars: &Vec<char>) -> (r: bool)
    ensures
        r == palindrome(chars@),
{
    let len = chars.len();
    let mut i: usize = 0;
    while i < len / 2
        invariant
            len == chars@.len(),
            i <= len / 2,
            forall|j: int| 0 <= j < i ==> #[trigger] chars@[j] == chars@[len - 1 - j],
        decreases len / 2 - i,
    {
        if chars[i] != chars[len - 1 - i] {
            assert(chars@.reverse()[len - 1 - i] == chars@[i as int]);
            assert(chars@ != chars@.reverse());
            return false;
        }
        i += 1;
    }
    assert forall|j: int| 0 <= j < len implies #[trigger] chars@.reverse()[j] == chars@[j] by {
        if j >= len / 2 {
            assert(chars@[len - 1 - (len - 1 - j)] == chars@[j]);
        }
    }
    assert(chars@ =~= chars@.reverse());
    true
}

/// Whether `s` reads the same backwards, character by character.
pub fn is_palindrome(s: &str) -> (r: bool)
    ensures
        r == palindrome(s@),
{
    let chars = chars_of(s);
    is_palindrome_chars(&chars)
}

/// The palindromes among `words`, in their original order.
pub fn filter_palindromes<'a>(words: &[&'a str]) -> (r: Vec<&'a str>)
    ensures
        r@ == words@.filter(|w: &'a str| palindrome(w@)),
{
    let ghost p = |w: &'a str| palindrome(w@);
    let mut r: Vec<&'a str> = Vec::new();
    let mut i: usize = 0;
    while i < words.len()
        invariant
            i <= words@.len(),
            p == (|w: &'a str| palindrome(w@)),
            r@ == words@.take(i as int).filter(p),
        decreases words.len() - i,
    {
        proof { lemma_filter_take_succ(words@, p, i as int); }
        if is_palindrome(words[i]) {
            r.push(words[i]);
        }
        i += 1;
    }
    proof { lemma_take_full(words@); }
    r
}

/// The value an even element contributes to a sum of evens.
pub open spec fn even_part(x: i32) -> int {
    if x % 2 == 0 { x as int } else { 0 }
}

/// [`even_part`] as a function value.
pub open spec fn evens_fn() -> spec_fn(i32) -> int {
    |x: i32| even_part(x)
}

/// [`square_part`] as a function value.
pub open spec fn squares_fn() -> spec_fn(i32) -> int {
    |x: i32| square_part(x)
}

/// The square of an element, as a mathematical integer.
pub open spec fn square_part(x: i32) -> int {
    x * x
}

/// Sum of the even elements, with a loop and an accumulator.
pub fn sum_evens_imperative(numbers: &[i32]) -> (r: i32)
    requires
        i32_running_fits(numbers@, evens_fn()),
    ensures
        r == sum_map(numbers@, evens_fn()),
{
    let ghost f = evens_fn();
    let mut total: i32 = 0;
    let mut i: usize = 0;
    while i < numbers.len()
        invariant
            i <= numbers@.len(),
            f == evens_fn(),
            i32_running_fits(numbers@, f),
            total == sum_map(numbers@.take(i as int), f),
        decreases numbers.len() - i,
    {
        proof {
            lemma_sum_map_take_succ(numbers@, f, i as int);
            assert(i32::MIN <= sum_map(numbers@.take(i + 1), f) <= i32::MAX);
        }
        let n = numbers[i];
        if n % 2 == 0 {
            total += n;
        }
        i += 1;
    }
    proof { lemma_take_full(numbers@); }
    total
}

/// Sum of the even elements, in the declarative style; same result as
/// [`sum_evens_imperative`] on every input.
pub fn sum_evens_functional(numbers: &[i32]) -> (r: i32)
    requires
        i32_running_fits(numbers@, evens_fn()),
    ensures
        r == sum_map(numbers@, evens_fn()),
{
    sum_evens_imperative(numbers)
}

/// Sum of the squares of the elements, with a loop.
pub fn sum_of_squares_imperative(numbers: &[i32]) -> (r: i32)
    requires
        forall|i: int| 0 <= i < numbers@.len() ==> #[trigger] square_part(numbers@[i]) <= i32::MAX,
        i32_running_fits(numbers@, squares_fn()),
    ensures
        r == sum_map(numbers@, squares_fn()),
{
    let ghost f = squares_fn();
    let mut result: i32 = 0;
    let mut i: usize = 0;
    while i < numbers.len()
        invariant
            i <= numbers@.len(),
            forall|j: int| 0 <= j < numbers@.len() ==> #[trigger] square_part(numbers@[j]) <= i32::MAX,
            f == squares_fn(),
            i32_running_fits(numbers@, f),
            result == sum_map(numbers@.take(i as int), f),
        decreases numbers.len() - i,
    {
        proof {
            lemma_sum_map_take_succ(numbers@, f, i as int);
            assert(i32::MIN <= sum_map(numbers@.take(i + 1), f) <= i32::MAX);
        }
        let n = numbers[i];
        assert(square_part(numbers@[i as int]) <= i32::MAX);
        assert(n * n >= 0) by (nonlinear_arith);
        result += n * n;
        i += 1;
    }
    proof { lemma_take_full(numbers@); }
    result
}

/// Sum of the squares of the elements, declaratively; agrees with
/// [`sum_of_squares_imperative`].
pub fn sum_of_squares_functional(numbers: &[i32]) -> (r: i32)
    requires
        forall|i: int| 0 <= i < numbers@.len() ==> #[trigger] square_part(numbers@[i]) <= i32::MAX,
        i32_running_fits(numbers@, squares_fn()),
    ensures
        r == sum_map(numbers@, squares_fn()),
{
    sum_of_squares_imperative(numbers)
}

/// An order: an id, a subtotal, and an optional coupon discount.
#[derive(Debug, Clone, PartialEq, Eq)]
pub struct Order {
    pub id: u32,
    pub subtotal: i32,
    pub coupon: Option<i32>,
}

/// The price after the coupon, never below zero.
pub open spec fn final_price_spec(subtotal: int, coupon: Option<i32>) -> int {
    let d = match coupon {
        Some(c) => subtotal - c,
        None => subtotal,
    };
    if d < 0 { 0 } else { d }
}

/// What pricing does: the price is never negative; without a coupon a
/// non-negative subtotal is charged in full; with a coupon the discount is
/// taken off in full as long as that leaves a non-negative price, and the
/// price is zero when the coupon covers the whole subtotal.
pub proof fn law_final_price(subtotal: i32, c: i32)
    ensures
        final_price_spec(subtotal as int, None) >= 0,
        final_price_spec(subtotal as int, Some(c)) >= 0,
        subtotal >= 0 ==> final_price_spec(subtotal as int, None) == subtotal,
        subtotal < 0 ==> final_price_spec(subtotal as int, None) == 0,
        subtotal - c >= 0 ==> final_price_spec(subtotal as int, Some(c)) == subtotal - c,
        subtotal - c <= 0 ==> final_price_spec(subtotal as int, Some(c)) == 0,
{
}

/// The final price of an order: subtotal minus the coupon, floored at zero.
pub fn calculate_final_price(order: &Order) -> (r: i32)
    requires
        order.coupon matches Some(c) ==> i32::MIN <= order.subtotal - c <= i32::MAX,
    ensures
        r == final_price_spec(order.subtotal as int, order.coupon),
{
    let discounted = match order.coupon {
        Some(discount) => order.subtotal - discount,
        None => order.subtotal,
    };
    if discounted < 0 { 0 } else { discounted }
}

} // verus!
