//! Data transformations in the iterator style: mapping, filtering, folding,
//! flattening, zipping, prefix scans, a log-cleaning pipeline, and the same
//! maps and sums run in parallel.
use vstd::prelude::*;
use vstd::string::*;
use crate::seqs::{sum_of, ints, i32_prefix_sums_fit, lemma_sum_take_succ, lemma_take_succ, lemma_filter_take_succ, lemma_take_full};
use crate::numparse::{white_space, is_ws, trimmed, trim};
use crate::text::{chars_of, upper_text, upper_string, string_from_chars};
use crate::composition::texts;
use crate::recursion::{fib, lemma_fib_monotonic, FibIter};
use rayon::iter::{IntoParallelRefIterator, ParallelIterator};

verus! {

// ─── map / filter / fold ───────────────────────────────────────────────

/// Each element squared; every square must fit in an `i32`.
pub fn square_all(numbers: &[i32]) -> (r: Vec<i32>)
    requires
        forall|i: int| 0 <= i < numbers@.len() ==> #[trigger] (numbers@[i] * numbers@[i]) <= i32::MAX,
    ensures
        r@.len() == numbers@.len(),
        forall|i: int| 0 <= i < numbers@.len() ==> #[trigger] r@[i] == numbers@[i] * numbers@[i],
{
    let mut r: Vec<i32> = Vec::new();
    let mut i: usize = 0;
    while i < numbers.len()
        invariant
            i <= numbers@.len(),
            forall|k: int| 0 <= k < numbers@.len() ==> #[trigger] (numbers@[k] * numbers@[k]) <= i32::MAX,
            r@.len() == i,
            forall|k: int| 0 <= k < i ==> #[trigger] r@[k] == numbers@[k] * numbers@[k],
        decreases numbers.len() - i,
    {
        let x = numbers[i];
        assert(x * x <= i32::MAX);
        proof {
            if x < 0 {
                vstd::arithmetic::mul::lemma_mul_cancels_negatives(x as int, x as int);
                vstd::arithmetic::mul::lemma_mul_nonnegative(-x, -x);
            } else {
                vstd::arithmetic::mul::lemma_mul_nonnegative(x as int, x as int);
            }
        }
        r.push(x * x);
        i += 1;
    }
    r
}

/// Whether an `i32` is even.
pub open spec fn is_even(x: i32) -> bool {
    x % 2 == 0
}

/// The even elements, in order.
pub fn filter_evens(numbers: &[i32]) -> (r: Vec<i32>)
    ensures
        r@ == numbers@.filter(|x: i32| is_even(x)),
{
    let ghost p = |x: i32| is_even(x);
    let mut r: Vec<i32> = Vec::new();
    let mut i: usize = 0;
    while i < numbers.len()
        invariant
            i <= numbers@.len(),
            p == (|x: i32| is_even(x)),
            r@ == numbers@.take(i as int).filter(p),
        decreases numbers.len() - i,
    {
        proof { lemma_filter_take_succ(numbers@, p, i as int); }
        if numbers[i] % 2 == 0 {
            r.push(numbers[i]);
        }
        i += 1;
    }
    proof { lemma_take_full(numbers@); }
    r
}

/// The sum, folded from 0; every running total must fit in an `i32`.
pub fn sum_with_fold(numbers: &[i32]) -> (r: i32)
    requires
        i32_prefix_sums_fit(ints(numbers@)),
    ensures
        r == sum_of(ints(numbers@)),
{
    let ghost s = ints(numbers@);
    let mut acc: i32 = 0;
    let mut i: usize = 0;
    while i < numbers.len()
        invariant
            s == ints(numbers@),
            i <= numbers@.len(),
            i32_prefix_sums_fit(s),
            acc == sum_of(s.take(i as int)),
        decreases numbers.len() - i,
    {
        proof {
            lemma_sum_take_succ(s, i as int);
            assert(i32::MIN <= sum_of(s.take(i + 1)) <= i32::MAX);
        }
        acc = acc + numbers[i];
        i += 1;
    }
    proof { lemma_take_full(s); }
    acc
}

/// The characters of all the words, one after another.
pub open spec fn concat_strs(words: Seq<&str>) -> Seq<char>
    decreases words.len(),
{
    if words.len() == 0 {
        Seq::empty()
    } else {
        concat_strs(words.drop_last()) + words.last()@
    }
}

/// All the words joined with nothing between them.
pub fn join_with_fold(words: &[&str]) -> (r: String)
    ensures
        r@ == concat_strs(words@),
{
    let mut acc = String::new();
    let mut i: usize = 0;
    while i < words.len()
        invariant
            i <= words@.len(),
            acc@ == concat_strs(words@.take(i as int)),
        decreases words.len() - i,
    {
        acc.append(words[i]);
        proof {
            lemma_take_succ(words@, i as int);
            assert(words@.take(i + 1).drop_last() =~= words@.take(i as int));
        }
        i += 1;
    }
    proof { lemma_take_full(words@); }
    acc
}

// ─── flat_map ──────────────────────────────────────────────────────────

/// Scanning `s` for words: the words completed so far and the word in progress.
pub open spec fn ws_scan(s: Seq<char>) -> (Seq<Seq<char>>, Seq<char>)
    decreases s.len(),
{
    if s.len() == 0 {
        (Seq::empty(), Seq::empty())
    } else {
        let (done, cur) = ws_scan(s.drop_last());
        let c = s.last();
        if white_space(c) {
            if cur.len() > 0 { (done.push(cur), Seq::empty()) } else { (done, Seq::empty()) }
        } else {
            (done, cur.push(c))
        }
    }
}

/// The words of `s`: its maximal runs of non-whitespace characters, in order.
pub open spec fn split_words(s: Seq<char>) -> Seq<Seq<char>> {
    let (done, cur) = ws_scan(s);
    if cur.len() > 0 { done.push(cur) } else { done }
}

/// The words of every sentence, sentence after sentence.
pub open spec fn all_words(sentences: Seq<&str>) -> Seq<Seq<char>>
    decreases sentences.len(),
{
    if sentences.len() == 0 {
        Seq::empty()
    } else {
        all_words(sentences.drop_last()) + split_words(sentences.last()@)
    }
}

/// Appends the words of `s` to `out`.
fn push_words(out: &mut Vec<String>, s: &str)
    ensures
        texts(final(out)@) == texts(old(out)@) + split_words(s@),
{
    let cs = chars_of(s);
    let ghost base = texts(out@);
    let mut done: Vec<String> = Vec::new();
    let mut cur: Vec<char> = Vec::new();
    let mut i: usize = 0;
    while i < cs.len()
        invariant
            cs@ == s@,
            i <= cs@.len(),
            (texts(done@), cur@) == ws_scan(cs@.take(i as int)),
        decreases cs.len() - i,
    {
        let c = cs[i];
        assert(cs@.take(i + 1).drop_last() =~= cs@.take(i as int));
        if is_ws(c) {
            if cur.len() > 0 {
                let w = string_from_chars(&cur);
                done.push(w);
                assert(texts(done@) =~= ws_scan(cs@.take(i as int)).0.push(cur@));
            }
            cur = Vec::new();
        } else {
            cur.push(c);
        }
        i += 1;
    }
    proof { lemma_take_full(cs@); }
    if cur.len() > 0 {
        let w = string_from_chars(&cur);
        done.push(w);
        assert(texts(done@) =~= split_words(s@));
    }
    let ghost out0 = out@;
    out.append(&mut done);
    assert(texts(out@) =~= texts(out0) + split_words(s@));
}

/// Every sentence split at whitespace, the words of all sentences in order.
pub fn words_from_sentences(sentences: &[&str]) -> (r: Vec<String>)
    ensures
        texts(r@) == all_words(sentences@),
{
    let mut r: Vec<String> = Vec::new();
    let mut i: usize = 0;
    while i < sentences.len()
        invariant
            i <= sentences@.len(),
            texts(r@) == all_words(sentences@.take(i as int)),
        decreases sentences.len() - i,
    {
        push_words(&mut r, sentences[i]);
        assert(sentences@.take(i + 1).drop_last() =~= sentences@.take(i as int));
        i += 1;
    }
    proof { lemma_take_full(sentences@); }
    r
}

/// The views of nested vectors.
pub open spec fn inner_views(nested: Seq<Vec<i32>>) -> Seq<Seq<i32>> {
    nested.map_values(|v: Vec<i32>| v@)
}

/// The inner vectors' elements, one vector after another.
pub fn flatten_nested(nested: Vec<Vec<i32>>) -> (r: Vec<i32>)
    ensures
        r@ == inner_views(nested@).flatten_alt(),
{
    let mut r: Vec<i32> = Vec::new();
    let mut i: usize = 0;
    while i < nested.len()
        invariant
            i <= nested@.len(),
            r@ == inner_views(nested@.take(i as int)).flatten_alt(),
        decreases nested.len() - i,
    {
        let mut i2: usize = 0;
        let ghost before = r@;
        while i2 < nested[i].len()
            invariant
                i < nested@.len(),
                i2 <= nested@[i as int]@.len(),
                r@ == before + nested@[i as int]@.take(i2 as int),
            decreases nested@[i as int]@.len() - i2,
        {
            r.push(nested[i][i2]);
            assert(r@ =~= before + nested@[i as int]@.take(i2 + 1));
            i2 += 1;
        }
        assert(nested@[i as int]@.take(i2 as int) =~= nested@[i as int]@);
        assert(inner_views(nested@.take(i + 1)).drop_last() =~= inner_views(nested@.take(i as int)));
        i += 1;
    }
    assert(nested@.take(nested@.len() as int) =~= nested@);
    r
}

// ─── zip / chain ───────────────────────────────────────────────────────

/// Names paired with scores by position, as long as the shorter list.
pub fn zip_names_scores(names: &[&str], scores: &[i32]) -> (r: Vec<(String, i32)>)
    ensures
        r@.len() == (if names@.len() <= scores@.len() { names@.len() } else { scores@.len() }),
        forall|i: int| 0 <= i < r@.len() ==> (#[trigger] r@[i]).0@ == names@[i]@ && r@[i].1 == scores@[i],
{
    let n = if names.len() <= scores.len() { names.len() } else { scores.len() };
    let mut r: Vec<(String, i32)> = Vec::new();
    let mut i: usize = 0;
    while i < n
        invariant
            n == (if names@.len() <= scores@.len() { names@.len() } else { scores@.len() }),
            i <= n,
            r@.len() == i,
            forall|k: int| 0 <= k < i ==> (#[trigger] r@[k]).0@ == names@[k]@ && r@[k].1 == scores@[k],
        decreases n - i,
    {
        r.push((String::from_str(names[i]), scores[i]));
        i += 1;
    }
    r
}

/// `a` followed by `b`.
pub fn chain_slices(a: &[i32], b: &[i32]) -> (r: Vec<i32>)
    ensures
        r@ == a@ + b@,
{
    let mut r: Vec<i32> = Vec::new();
    let mut i: usize = 0;
    while i < a.len()
        invariant
            i <= a@.len(),
            r@ == a@.take(i as int),
        decreases a.len() - i,
    {
        r.push(a[i]);
        proof { lemma_take_succ(a@, i as int); }
        i += 1;
    }
    proof { lemma_take_full(a@); }
    let mut j: usize = 0;
    while j < b.len()
        invariant
            j <= b@.len(),
            r@ == a@ + b@.take(j as int),
        decreases b.len() - j,
    {
        r.push(b[j]);
        assert(r@ =~= a@ + b@.take(j + 1));
        j += 1;
    }
    proof { lemma_take_full(b@); }
    r
}

// ─── Infinite sequences, cut short ─────────────────────────────────────

/// A Fibonacci number is at least its index minus one.
proof fn lemma_fib_lower(k: nat)
    ensures
        fib(k) + 1 >= k,
    decreases k,
{
    reveal_with_fuel(fib, 4);
    if k >= 4 {
        lemma_fib_lower((k - 1) as nat);
        lemma_fib_lower((k - 2) as nat);
    }
}

/// The Fibonacci numbers below 100, in order.
pub fn fibonacci_under_100() -> (r: Vec<u64>)
    ensures
        forall|i: int| 0 <= i < r@.len() ==> #[trigger] r@[i] == fib(i as nat) && r@[i] < 100,
        fib(r@.len()) >= 100,
{
    let mut r: Vec<u64> = Vec::new();
    let mut a: u64 = 0;
    let mut b: u64 = 1;
    let mut k: u64 = 0;
    while a < 100
        invariant
            a == fib(k as nat),
            b == fib(k as nat + 1),
            k == r@.len(),
            b <= 2 * a || (a == 0 && b == 1),
            forall|i: int| 0 <= i < r@.len() ==> #[trigger] r@[i] == fib(i as nat) && r@[i] < 100,
        decreases 101 - k,
    {
        proof { lemma_fib_lower(k as nat); }
        r.push(a);
        let next = a + b;
        proof {
            assert(fib(k as nat + 2) == fib(k as nat) + fib(k as nat + 1));
            lemma_fib_monotonic(k as nat, k as nat + 1);
        }
        a = b;
        b = next;
        k += 1;
    }
    r
}

/// Three copies of 42, and 1, 2, 3 repeated out to seven elements.
pub fn demonstrate_infinite_iterators() -> (r: (Vec<i32>, Vec<i32>))
    ensures
        r.0@ == seq![42i32, 42, 42],
        r.1@ == seq![1i32, 2, 3, 1, 2, 3, 1],
{
    let mut repeated: Vec<i32> = Vec::new();
    let mut i: usize = 0;
    while i < 3
        invariant
            i <= 3,
            repeated@ == Seq::new(i as nat, |k: int| 42i32),
        decreases 3 - i,
    {
        repeated.push(42);
        assert(repeated@ =~= Seq::new((i + 1) as nat, |k: int| 42i32));
        i += 1;
    }
    let base: Vec<i32> = vec![1, 2, 3];
    let mut cycled: Vec<i32> = Vec::new();
    let mut j: usize = 0;
    while j < 7
        invariant
            j <= 7,
            base@ == seq![1i32, 2, 3],
            cycled@ == Seq::new(j as nat, |k: int| base@[k % 3]),
        decreases 7 - j,
    {
        cycled.push(base[j % 3]);
        assert(cycled@ =~= Seq::new((j + 1) as nat, |k: int| base@[k % 3]));
        j += 1;
    }
    assert(repeated@ =~= seq![42i32, 42, 42]);
    assert(cycled@ =~= seq![1i32, 2, 3, 1, 2, 3, 1]);
    (repeated, cycled)
}

/// The Fibonacci numbers `0, 1, 1, 2, 3, 5, ...` as an endless generator.
pub fn fibonacci() -> (f: FibIter)
    ensures
        f.position() == 0,
{
    FibIter::new()
}

/// Counts `1, 2, ..., max`, one per call of `next`, then stops.
pub struct Counter {
    current: u32,
    max: u32,
}

impl Counter {
    /// What the counter has still to produce.
    pub closed spec fn remaining(&self) -> Seq<u32> {
        let n: int = if self.current < self.max { self.max - self.current } else { 0 };
        Seq::new(n as nat, |i: int| (self.current + 1 + i) as u32)
    }

    /// A counter over `1..=max`.
    pub fn new(max: u32) -> (c: Self)
        ensures
            c.remaining() == Seq::new(max as nat, |i: int| (i + 1) as u32),
    {
        let c = Counter { current: 0, max };
        assert(c.remaining() =~= Seq::new(max as nat, |i: int| (i + 1) as u32));
        c
    }

    /// The next count, or `None` once `max` has been reached.
    pub fn next(&mut self) -> (r: Option<u32>)
        ensures
            old(self).remaining().len() == 0 ==> r is None && final(self).remaining() == old(self).remaining(),
            old(self).remaining().len() > 0 ==> r == Some(old(self).remaining()[0])
                && final(self).remaining() == old(self).remaining().drop_first(),
    {
        if self.current < self.max {
            self.current += 1;
            assert(self.remaining() =~= old(self).remaining().drop_first());
            Some(self.current)
        } else {
            None
        }
    }
}

// ─── A log-cleaning pipeline ───────────────────────────────────────────

/// A line is kept when it is not empty and does not start with `#`.
pub open spec fn keep_line(l: Seq<char>) -> bool {
    l.len() > 0 && l[0] != '#'
}

/// The kept lines, trimmed and uppercased, in order.
pub open spec fn cleaned_lines(lines: Seq<&str>) -> Seq<Seq<char>>
    decreases lines.len(),
{
    if lines.len() == 0 {
        Seq::empty()
    } else {
        let rest = cleaned_lines(lines.drop_last());
        let l = lines.last()@;
        if keep_line(l) { rest.push(upper_text(trimmed(l))) } else { rest }
    }
}

/// Drops empty lines and `#` comments, then trims and uppercases the rest.
pub fn process_log_lines(lines: &[&str]) -> (r: Vec<String>)
    ensures
        texts(r@) == cleaned_lines(lines@),
{
    let mut r: Vec<String> = Vec::new();
    let mut i: usize = 0;
    while i < lines.len()
        invariant
            i <= lines@.len(),
            texts(r@) == cleaned_lines(lines@.take(i as int)),
        decreases lines.len() - i,
    {
        let l = lines[i];
        assert(lines@.take(i + 1).drop_last() =~= lines@.take(i as int));
        let n = l.unicode_len();
        if n > 0 && l.get_char(0) != '#' {
            let t = trim(l);
            let u = upper_string(t.as_str());
            r.push(u);
            assert(texts(r@) =~= cleaned_lines(lines@.take(i as int)).push(upper_text(trimmed(l@))));
        }
        i += 1;
    }
    proof { lemma_take_full(lines@); }
    r
}

// ─── Filtering and sorting records ─────────────────────────────────────

#[derive(Debug, Clone)]
pub struct Product {
    pub name: String,
    pub price: u32,
}

/// Lexicographic order on character sequences (the order of `str`'s `Ord`,
/// which compares UTF-8 bytes and so orders by code point).
pub open spec fn lex_le(a: Seq<char>, b: Seq<char>) -> bool
    decreases a.len(),
{
    if a.len() == 0 {
        true
    } else if b.len() == 0 {
        false
    } else if a[0] != b[0] {
        a[0] < b[0]
    } else {
        lex_le(a.drop_first(), b.drop_first())
    }
}

pub proof fn lemma_lex_total(a: Seq<char>, b: Seq<char>)
    ensures
        lex_le(a, b) || lex_le(b, a),
    decreases a.len(),
{
    if a.len() > 0 && b.len() > 0 && a[0] == b[0] {
        lemma_lex_total(a.drop_first(), b.drop_first());
    }
}

pub proof fn lemma_lex_trans(a: Seq<char>, b: Seq<char>, c: Seq<char>)
    requires
        lex_le(a, b),
        lex_le(b, c),
    ensures
        lex_le(a, c),
    decreases a.len(),
{
    if a.len() > 0 && b.len() > 0 && c.len() > 0 && a[0] == b[0] && b[0] == c[0] {
        lemma_lex_trans(a.drop_first(), b.drop_first(), c.drop_first());
    }
}

/// Whether `a` comes after `b` in [`lex_le`] order.
pub fn str_gt(a: &str, b: &str) -> (r: bool)
    ensures
        r == !lex_le(a@, b@),
{
    let n = a.unicode_len();
    let m = b.unicode_len();
    let mut i: usize = 0;
    assert(a@.skip(0) =~= a@ && b@.skip(0) =~= b@);
    while i < n && i < m
        invariant
            n == a@.len(),
            m == b@.len(),
            i <= n,
            i <= m,
            forall|k: int| 0 <= k < i ==> a@[k] == b@[k],
            lex_le(a@, b@) == lex_le(a@.skip(i as int), b@.skip(i as int)),
        decreases n - i,
    {
        let x = a.get_char(i);
        let y = b.get_char(i);
        assert(a@.skip(i as int)[0] == x && b@.skip(i as int)[0] == y);
        if x != y {
            return x > y;
        }
        assert(a@.skip(i as int).drop_first() =~= a@.skip(i + 1));
        assert(b@.skip(i as int).drop_first() =~= b@.skip(i + 1));
        i += 1;
    }
    i < n
}

/// Whether the names are in [`lex_le`] order.
pub open spec fn names_sorted(names: Seq<&str>) -> bool {
    forall|i: int, j: int| 0 <= i <= j < names.len() ==> lex_le(#[trigger] names[i]@, #[trigger] names[j]@)
}

/// The characters of each string.
pub open spec fn str_views(s: Seq<&str>) -> Seq<Seq<char>> {
    s.map_values(|x: &str| x@)
}

/// The names of the products that cost at least `threshold`, in list order.
pub open spec fn expensive_names(products: Seq<Product>, threshold: u32) -> Seq<Seq<char>> {
    products.filter(|p: Product| p.price >= threshold).map_values(|p: Product| p.name@)
}

/// Inserts `x` into the sorted `v` after every name not above it.
fn insert_sorted<'a>(v: &mut Vec<&'a str>, x: &'a str)
    requires
        names_sorted(old(v)@),
    ensures
        names_sorted(final(v)@),
        str_views(final(v)@).to_multiset() == str_views(old(v)@).to_multiset().insert(x@),
{
    let mut p: usize = 0;
    while p < v.len()
        invariant
            p <= v@.len(),
            names_sorted(v@),
            forall|k: int| 0 <= k < p ==> lex_le(#[trigger] v@[k]@, x@),
        ensures
            p <= v@.len(),
            names_sorted(v@),
            forall|k: int| 0 <= k < p ==> lex_le(#[trigger] v@[k]@, x@),
            p == v@.len() || !lex_le(v@[p as int]@, x@),
        decreases v.len() - p,
    {
        if str_gt(v[p], x) {
            break;
        }
        p += 1;
    }
    let ghost before = v@;
    proof {
        if p < before.len() {
            lemma_lex_total(x@, before[p as int]@);
        }
    }
    v.insert(p, x);
    proof {
        assert forall|i: int, j: int| 0 <= i <= j < v@.len() implies lex_le(#[trigger] v@[i]@, #[trigger] v@[j]@) by {
            if i < p && j < p {
            } else if i < p && j == p {
            } else if i < p && j > p {
                assert(v@[j] == before[j - 1]);
                assert(lex_le(before[i]@, before[j - 1]@));
            } else if i == p && j == p {
                lemma_lex_total(x@, x@);
            } else if i == p && j > p {
                assert(v@[j] == before[j - 1]);
                assert(lex_le(x@, before[p as int]@));
                assert(lex_le(before[p as int]@, before[j - 1]@));
                lemma_lex_trans(x@, before[p as int]@, before[j - 1]@);
            } else {
                assert(v@[i] == before[i - 1] && v@[j] == before[j - 1]);
            }
        }
        assert(str_views(v@) =~= str_views(before).insert(p as int, x@));
        vstd::seq_lib::to_multiset_insert(str_views(before), p as int, x@);
    }
}

/// The names of the products that cost at least `threshold`, sorted.
pub fn expensive_products_sorted<'a>(products: &'a [Product], threshold: u32) -> (r: Vec<&'a str>)
    ensures
        names_sorted(r@),
        str_views(r@).to_multiset() == expensive_names(products@, threshold).to_multiset(),
{
    let ghost pf = |p: Product| p.price >= threshold;
    let mut names: Vec<&'a str> = Vec::new();
    let mut i: usize = 0;
    while i < products.len()
        invariant
            i <= products@.len(),
            pf == (|p: Product| p.price >= threshold),
            str_views(names@) == products@.take(i as int).filter(pf).map_values(|p: Product| p.name@),
        decreases products.len() - i,
    {
        proof { lemma_filter_take_succ(products@, pf, i as int); }
        if products[i].price >= threshold {
            let nm = products[i].name.as_str();
            assert(nm@ == products@[i as int].name@);
            assert(pf(products@[i as int]));
            let ghost old_names = names@;
            names.push(nm);
            assert(str_views(names@) =~= str_views(old_names).push(nm@));
            assert(str_views(names@) =~= products@.take(i + 1).filter(pf).map_values(|p: Product| p.name@));
        }
        i += 1;
    }
    proof { lemma_take_full(products@); }
    let mut sorted: Vec<&'a str> = Vec::new();
    let mut j: usize = 0;
    assert(str_views(names@.take(0)) =~= str_views(sorted@));
    while j < names.len()
        invariant
            j <= names@.len(),
            names_sorted(sorted@),
            str_views(sorted@).to_multiset() == str_views(names@.take(j as int)).to_multiset(),
        decreases names.len() - j,
    {
        insert_sorted(&mut sorted, names[j]);
        proof {
            assert(str_views(names@.take(j + 1)) =~= str_views(names@.take(j as int)).push(names@[j as int]@));
            vstd::seq_lib::to_multiset_build(str_views(names@.take(j as int)), names@[j as int]@);
        }
        j += 1;
    }
    proof { lemma_take_full(names@); }
    sorted
}

// ─── Prefix scans ──────────────────────────────────────────────────────

/// The running totals: element `i` is the sum of the first `i + 1`
/// elements; every such total must fit in an `i32`.
pub fn running_sum(numbers: &[i32]) -> (r: Vec<i32>)
    requires
        i32_prefix_sums_fit(ints(numbers@)),
    ensures
        r@.len() == numbers@.len(),
        forall|i: int| 0 <= i < numbers@.len() ==> #[trigger] r@[i] == sum_of(ints(numbers@).take(i + 1)),
{
    let ghost s = ints(numbers@);
    let mut acc: i32 = 0;
    let mut r: Vec<i32> = Vec::new();
    let mut i: usize = 0;
    while i < numbers.len()
        invariant
            s == ints(numbers@),
            i <= numbers@.len(),
            i32_prefix_sums_fit(s),
            acc == sum_of(s.take(i as int)),
            r@.len() == i,
            forall|k: int| 0 <= k < i ==> #[trigger] r@[k] == sum_of(s.take(k + 1)),
        decreases numbers.len() - i,
    {
        proof {
            lemma_sum_take_succ(s, i as int);
            assert(i32::MIN <= sum_of(s.take(i + 1)) <= i32::MAX);
        }
        acc = acc + numbers[i];
        r.push(acc);
        i += 1;
    }
    r
}

/// The longest prefix whose elements are all at most `threshold`.
pub fn take_while_le(numbers: &[i32], threshold: i32) -> (r: Vec<i32>)
    ensures
        r@ == numbers@.take(r@.len() as int),
        r@.len() <= numbers@.len(),
        forall|k: int| 0 <= k < r@.len() ==> #[trigger] numbers@[k] <= threshold,
        r@.len() == numbers@.len() || numbers@[r@.len() as int] > threshold,
{
    let mut r: Vec<i32> = Vec::new();
    let mut i: usize = 0;
    while i < numbers.len() && numbers[i] <= threshold
        invariant
            i <= numbers@.len(),
            r@ == numbers@.take(i as int),
            forall|k: int| 0 <= k < i ==> #[trigger] numbers@[k] <= threshold,
        decreases numbers.len() - i,
    {
        r.push(numbers[i]);
        proof { lemma_take_succ(numbers@, i as int); }
        i += 1;
    }
    r
}

/// The longest prefix whose elements are all below `threshold`.
pub fn take_below_threshold(numbers: &[i32], threshold: i32) -> (r: Vec<i32>)
    ensures
        r@ == numbers@.take(r@.len() as int),
        r@.len() <= numbers@.len(),
        forall|k: int| 0 <= k < r@.len() ==> #[trigger] numbers@[k] < threshold,
        r@.len() == numbers@.len() || numbers@[r@.len() as int] >= threshold,
{
    let mut r: Vec<i32> = Vec::new();
    let mut i: usize = 0;
    while i < numbers.len() && numbers[i] < threshold
        invariant
            i <= numbers@.len(),
            r@ == numbers@.take(i as int),
            forall|k: int| 0 <= k < i ==> #[trigger] numbers@[k] < threshold,
        decreases numbers.len() - i,
    {
        r.push(numbers[i]);
        proof { lemma_take_succ(numbers@, i as int); }
        i += 1;
    }
    r
}

/// Everything after the leading zeros.
pub fn skip_leading_zeros(numbers: &[i32]) -> (r: Vec<i32>)
    ensures
        r@.len() <= numbers@.len(),
        r@ == numbers@.skip(numbers@.len() - r@.len()),
        forall|k: int| 0 <= k < numbers@.len() - r@.len() ==> #[trigger] numbers@[k] == 0,
        r@.len() == 0 || r@[0] != 0,
{
    let mut i: usize = 0;
    while i < numbers.len() && numbers[i] == 0
        invariant
            i <= numbers@.len(),
            forall|k: int| 0 <= k < i ==> #[trigger] numbers@[k] == 0,
        decreases numbers.len() - i,
    {
        i += 1;
    }
    let mut r: Vec<i32> = Vec::new();
    let mut j: usize = i;
    while j < numbers.len()
        invariant
            i <= j <= numbers@.len(),
            r@ == numbers@.subrange(i as int, j as int),
        decreases numbers.len() - j,
    {
        r.push(numbers[j]);
        assert(r@ =~= numbers@.subrange(i as int, j + 1));
        j += 1;
    }
    assert(r@ =~= numbers@.skip(i as int));
    r
}

// ─── The same in parallel ──────────────────────────────────────────────

/// Widens a sequence of `i64` to mathematical integers.
pub open spec fn ints64(s: Seq<i64>) -> Seq<int> {
    s.map_values(|x: i64| x as int)
}

/// The sum of the absolute values.
pub open spec fn abs_sum(s: Seq<int>) -> int
    decreases s.len(),
{
    if s.len() == 0 {
        0
    } else {
        abs_sum(s.drop_last()) + (if s.last() < 0 { -s.last() } else { s.last() })
    }
}

/// Each element doubled.
pub open spec fn doubled(s: Seq<int>) -> Seq<int> {
    s.map_values(|x: int| 2 * x)
}

fn square_i64(x: i64) -> (r: i64)
    requires
        x * x <= i64::MAX,
    ensures
        r == x * x,
{
    proof {
        if x < 0 {
            vstd::arithmetic::mul::lemma_mul_cancels_negatives(x as int, x as int);
            vstd::arithmetic::mul::lemma_mul_nonnegative(-x, -x);
        } else {
            vstd::arithmetic::mul::lemma_mul_nonnegative(x as int, x as int);
        }
    }
    x * x
}

fn is_positive(x: i64) -> (r: bool)
    ensures
        r == (x > 0),
{
    x > 0
}

fn double_i64(x: i64) -> (r: i64)
    requires
        i64::MIN <= 2 * x <= i64::MAX,
    ensures
        r == 2 * x,
{
    x * 2
}

fn exceeds(x: i64, threshold: i64) -> (r: bool)
    ensures
        r == (x > threshold),
{
    x > threshold
}

/// Calls rayon's `par_iter().map(..).collect()` with [`square_i64`].
/// Collecting an indexed parallel iterator into a `Vec` keeps the input
/// order, so element `i` is the square of input `i`.
#[verifier::external_body]
fn par_squares(data: &[i64]) -> (r: Vec<i64>)
    requires
        forall|i: int| 0 <= i < data@.len() ==> #[trigger] (data@[i] * data@[i]) <= i64::MAX,
    ensures
        r@.len() == data@.len(),
        forall|i: int| 0 <= i < data@.len() ==> #[trigger] r@[i] == data@[i] * data@[i],
{
    data.par_iter().map(|&x| square_i64(x)).collect()
}

/// Calls rayon's `par_iter().filter(..).copied().collect()` with
/// [`is_positive`]. rayon collects an unindexed parallel iterator into a
/// `Vec` by appending the pieces in order, so the kept elements stay in
/// input order.
#[verifier::external_body]
fn par_positives(data: &[i64]) -> (r: Vec<i64>)
    ensures
        r@ == data@.filter(|x: i64| x > 0),
{
    data.par_iter().filter(|&&x| is_positive(x)).copied().collect()
}

/// Calls rayon's `par_iter().sum()`. The order in which rayon adds is not
/// specified; when the absolute values sum to at most `i64::MAX` no partial
/// sum overflows, and integer addition gives the plain sum in any order.
#[verifier::external_body]
fn par_total(data: &[i64]) -> (r: i64)
    requires
        abs_sum(ints64(data@)) <= i64::MAX,
    ensures
        r == sum_of(ints64(data@)),
{
    data.par_iter().sum()
}

/// Calls rayon's `par_iter().map(..).filter(..).sum()` with
/// [`double_i64`] and [`exceeds`]: the sum of the doubled elements above
/// `threshold`, added in an unspecified order, under the same bound as
/// [`par_total`] on the doubled elements.
#[verifier::external_body]
fn par_doubled_sum_above(data: &[i64], threshold: i64) -> (r: i64)
    requires
        abs_sum(doubled(ints64(data@))) <= i64::MAX,
    ensures
        r == sum_of(doubled(ints64(data@)).filter(|y: int| y > threshold)),
{
    data.par_iter().map(|&x| double_i64(x)).filter(|&x| exceeds(x, threshold)).sum()
}

/// Every element squared, computed in parallel; every square must fit.
pub fn parallel_map(data: &[i64]) -> (r: Vec<i64>)
    requires
        forall|i: int| 0 <= i < data@.len() ==> #[trigger] (data@[i] * data@[i]) <= i64::MAX,
    ensures
        r@.len() == data@.len(),
        forall|i: int| 0 <= i < data@.len() ==> #[trigger] r@[i] == data@[i] * data@[i],
{
    par_squares(data)
}

/// The positive elements, in order, selected in parallel.
pub fn parallel_filter_positive(data: &[i64]) -> (r: Vec<i64>)
    ensures
        r@ == data@.filter(|x: i64| x > 0),
{
    par_positives(data)
}

/// The sum, computed in parallel.
pub fn parallel_sum(data: &[i64]) -> (r: i64)
    requires
        abs_sum(ints64(data@)) <= i64::MAX,
    ensures
        r == sum_of(ints64(data@)),
{
    par_total(data)
}

/// The sum of the doubled elements that exceed `threshold`, in parallel.
pub fn parallel_pipeline(data: &[i64], threshold: i64) -> (r: i64)
    requires
        abs_sum(doubled(ints64(data@))) <= i64::MAX,
    ensures
        r == sum_of(doubled(ints64(data@)).filter(|y: int| y > threshold)),
{
    par_doubled_sum_above(data, threshold)
}

} // verus!
