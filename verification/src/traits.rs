//! Functor, monad and monoid patterns: `Maybe`, `fmap`/`bind`, monoid folds,
//! the list monad, and applicative combination of independent results.
use vstd::prelude::*;
use vstd::string::*;
use vstd::std_specs::iter::IteratorSpec;
use crate::text::{int_text, push_i64};
use crate::error_handling::{div_toward_zero, trunc_div};

verus! {

/// An optional value: `Just` a value or `Nothing`.
#[derive(Debug, Clone, PartialEq, Eq)]
pub enum Maybe<T> {
    Just(T),
    Nothing,
}

impl<T> Maybe<T> {
    /// A `Maybe` of a reference to the contents.
    pub fn as_ref(&self) -> (r: Maybe<&T>)
        ensures
            match *self {
                Maybe::Just(v) => r == Maybe::Just(&v),
                Maybe::Nothing => r is Nothing,
            },
    {
        match self {
            Maybe::Just(v) => Maybe::Just(v),
            Maybe::Nothing => Maybe::Nothing,
        }
    }

    /// Whether a value is present.
    pub fn is_just(&self) -> (b: bool)
        ensures
            b == self is Just,
    {
        match self {
            Maybe::Just(_) => true,
            Maybe::Nothing => false,
        }
    }

    /// Whether no value is present.
    pub fn is_nothing(&self) -> (b: bool)
        ensures
            b == self is Nothing,
    {
        match self {
            Maybe::Just(_) => false,
            Maybe::Nothing => true,
        }
    }

    /// The value, or `default` when there is none.
    pub fn unwrap_or(self, default: T) -> (r: T)
        ensures
            r == (match self {
                Maybe::Just(v) => v,
                Maybe::Nothing => default,
            }),
    {
        match self {
            Maybe::Just(v) => v,
            Maybe::Nothing => default,
        }
    }

    /// Functor map: applies `f` to the value, if any.
    pub fn fmap<B, F: Fn(T) -> B>(self, f: F) -> (r: Maybe<B>)
        requires
            self matches Maybe::Just(a) ==> f.requires((a,)),
        ensures
            fmaps_to(self, f, r),
    {
        match self {
            Maybe::Just(a) => Maybe::Just(f(a)),
            Maybe::Nothing => Maybe::Nothing,
        }
    }

    /// Monadic unit: wraps a value.
    pub fn wrap(value: T) -> (r: Self)
        ensures
            r == Maybe::Just(value),
    {
        Maybe::Just(value)
    }

    /// Monadic bind: continues with `f` on the value, or stays `Nothing`.
    pub fn bind<B, F: Fn(T) -> Maybe<B>>(self, f: F) -> (r: Maybe<B>)
        requires
            self matches Maybe::Just(a) ==> f.requires((a,)),
        ensures
            binds_to(self, f, r),
    {
        match self {
            Maybe::Just(a) => f(a),
            Maybe::Nothing => Maybe::Nothing,
        }
    }
}

/// `r` is a possible result of `m.fmap(f)`.
pub open spec fn fmaps_to<A, B, F: Fn(A) -> B>(m: Maybe<A>, f: F, r: Maybe<B>) -> bool {
    match m {
        Maybe::Just(a) => r matches Maybe::Just(b) && f.ensures((a,), b),
        Maybe::Nothing => r is Nothing,
    }
}

/// `r` is a possible result of `m.bind(f)`.
pub open spec fn binds_to<A, B, F: Fn(A) -> Maybe<B>>(m: Maybe<A>, f: F, r: Maybe<B>) -> bool {
    match m {
        Maybe::Just(a) => f.ensures((a,), r),
        Maybe::Nothing => r is Nothing,
    }
}

/// Functor identity: mapping with a function that returns its argument
/// gives back the same `Maybe`.
pub proof fn law_functor_identity<A, F: Fn(A) -> A>(m: Maybe<A>, f: F, r: Maybe<A>)
    requires
        forall|x: A, y: A| f.ensures((x,), y) ==> y == x,
        fmaps_to(m, f, r),
    ensures
        r == m,
{
}

/// Functor composition: mapping with `f` and then with `g` gives a result of
/// mapping once with `g` after `f`.
pub proof fn law_functor_composition<A, B, C, F: Fn(A) -> B, G: Fn(B) -> C>(
    m: Maybe<A>,
    f: F,
    g: G,
    fm: Maybe<B>,
    r: Maybe<C>,
)
    requires
        fmaps_to(m, f, fm),
        fmaps_to(fm, g, r),
    ensures
        match m {
            Maybe::Just(a) => r matches Maybe::Just(c) && exists|b: B| f.ensures((a,), b) && g.ensures((b,), c),
            Maybe::Nothing => r is Nothing,
        },
{
    if let Maybe::Just(a) = m {
        let b = fm->Just_0;
        assert(f.ensures((a,), b));
    }
}

/// Monad left identity: binding a wrapped value has exactly the results of
/// applying `f` to it.
pub proof fn law_monad_left_identity<A, B, F: Fn(A) -> Maybe<B>>(a: A, w: Maybe<A>, f: F, r: Maybe<B>)
    requires
        call_ensures(Maybe::<A>::wrap, (a,), w),
    ensures
        binds_to(w, f, r) <==> f.ensures((a,), r),
{
}

/// Monad right identity: binding with `wrap` gives back the same `Maybe`.
pub proof fn law_monad_right_identity<A>(m: Maybe<A>, r: Maybe<A>)
    requires
        binds_to(m, Maybe::<A>::wrap, r),
    ensures
        r == m,
{
}

/// Monad associativity: binding `f` and then `g` gives a result of binding
/// once with `x => f(x).bind(g)`.
pub proof fn law_monad_associativity<A, B, C, F: Fn(A) -> Maybe<B>, G: Fn(B) -> Maybe<C>>(
    m: Maybe<A>,
    f: F,
    g: G,
    fm: Maybe<B>,
    r: Maybe<C>,
)
    requires
        binds_to(m, f, fm),
        binds_to(fm, g, r),
    ensures
        match m {
            Maybe::Just(a) => exists|b: Maybe<B>| f.ensures((a,), b) && binds_to(b, g, r),
            Maybe::Nothing => r is Nothing,
        },
{
    if let Maybe::Just(a) = m {
        assert(f.ensures((a,), fm) && binds_to(fm, g, r));
    }
}

/// A type with an associative combination and a neutral element.
pub trait Monoid: Sized {
    /// `combine(self, other)` is defined (no overflow).
    spec fn can_combine(self, other: Self) -> bool;

    /// The neutral element.
    fn empty() -> Self;

    /// The associative combination.
    fn combine(self, other: Self) -> Self
        requires
            self.can_combine(other),
    ;
}

impl Monoid for i32 {
    open spec fn can_combine(self, other: i32) -> bool {
        i32::MIN <= self + other <= i32::MAX
    }

    fn empty() -> (r: i32)
        ensures
            r == 0,
    {
        0
    }

    fn combine(self, other: i32) -> (r: i32)
        ensures
            r == self + other,
    {
        self + other
    }
}

impl Monoid for String {
    open spec fn can_combine(self, other: String) -> bool {
        true
    }

    fn empty() -> (r: String)
        ensures
            r@ == Seq::<char>::empty(),
    {
        String::new()
    }

    fn combine(self, other: String) -> (r: String)
        ensures
            r@ == self@ + other@,
    {
        self.concat(other.as_str())
    }
}

/// `i32` addition is associative and has 0 as its neutral element.
pub proof fn law_i32_monoid(x: i32, y: i32, z: i32)
    ensures
        0 + x == x && x + 0 == x,
        (x + y) + z == x + (y + z),
{
}

/// String concatenation is associative and has the empty string as its neutral element.
pub proof fn law_string_monoid(x: Seq<char>, y: Seq<char>, z: Seq<char>)
    ensures
        Seq::<char>::empty() + x == x && x + Seq::<char>::empty() == x,
        (x + y) + z == x + (y + z),
{
    assert(Seq::<char>::empty() + x =~= x);
    assert(x + Seq::<char>::empty() =~= x);
    assert((x + y) + z =~= x + (y + z));
}

/// `r` is a possible result of folding `items` from the left, starting at
/// `T::empty()` and combining each item in turn.
pub open spec fn folds_to<T: Monoid>(items: Seq<T>, r: T) -> bool
    decreases items.len(),
{
    if items.len() == 0 {
        call_ensures(T::empty, (), r)
    } else {
        exists|acc: T| folds_to(items.drop_last(), acc) && #[trigger] call_ensures(T::combine, (acc, items.last()), r)
    }
}

/// Folds every item of `iter` with the monoid's combination, from `T::empty()`.
pub fn fold_monoid<T: Monoid, I: Iterator<Item = T>>(iter: I) -> (r: T)
    requires
        iter.obeys_prophetic_iter_laws(),
        iter.decrease() is Some,
        forall|k: int, acc: T| 0 <= k < iter.remaining().len() && folds_to(iter.remaining().take(k), acc) ==> #[trigger] acc.can_combine(iter.remaining()[k]),
    ensures
        folds_to(iter.remaining(), r),
{
    let ghost all = iter.remaining();
    let mut it = iter;
    let mut acc = T::empty();
    let ghost mut k: int = 0;
    assert(all.take(0) =~= Seq::<T>::empty());
    loop
        invariant
            it.obeys_prophetic_iter_laws(),
            it.decrease() is Some,
            0 <= k <= all.len(),
            it.remaining() == all.skip(k),
            folds_to(all.take(k), acc),
            forall|j: int, a: T| 0 <= j < all.len() && folds_to(all.take(j), a) ==> #[trigger] a.can_combine(all[j]),
        ensures
            k == all.len(),
            folds_to(all.take(k), acc),
        decreases it.decrease()->0,
    {
        let ghost before = it.remaining();
        match it.next() {
            Some(x) => {
                assert(before.len() > 0);
                assert(x == all[k]);
                let ghost old_acc = acc;
                acc = acc.combine(x);
                proof {
                    assert(all.take(k + 1).drop_last() =~= all.take(k));
                    assert(all.take(k + 1).last() == x);
                    assert(folds_to(all.take(k), old_acc) && call_ensures(T::combine, (old_acc, x), acc));
                    assert(all.skip(k + 1) =~= before.drop_first());
                    k = k + 1;
                }
            }
            None => {
                assert(all.skip(k).len() == 0);
                break;
            }
        }
    }
    assert(all.take(k) =~= all);
    acc
}

/// The list monad's `flat_map`: `f` applied to every element, results concatenated in order.
pub fn flat_map_example<A, B, F>(xs: &[A], f: F) -> (r: Vec<B>)
    where
        A: Copy,
        F: Fn(A) -> Vec<B>,
    requires
        forall|i: int| 0 <= i < xs@.len() ==> f.requires((#[trigger] xs@[i],)),
    ensures
        exists|parts: Seq<Vec<B>>| parts.len() == xs@.len()
            && (forall|i: int| 0 <= i < xs@.len() ==> f.ensures((xs@[i],), #[trigger] parts[i]))
            && r@ == parts.map_values(|v: Vec<B>| v@).flatten(),
{
    let mut out: Vec<B> = Vec::new();
    let ghost mut parts: Seq<Vec<B>> = Seq::empty();
    let mut i: usize = 0;
    while i < xs.len()
        invariant
            i <= xs@.len(),
            forall|j: int| 0 <= j < xs@.len() ==> f.requires((#[trigger] xs@[j],)),
            parts.len() == i,
            forall|j: int| 0 <= j < i ==> f.ensures((xs@[j],), #[trigger] parts[j]),
            out@ == parts.map_values(|v: Vec<B>| v@).flatten(),
        decreases xs.len() - i,
    {
        let mut v = f(xs[i]);
        let ghost pv = v;
        let ghost old_out = out@;
        out.append(&mut v);
        proof {
            let old_parts = parts;
            old_parts.map_values(|v: Vec<B>| v@).lemma_flatten_push(pv@);
            parts = parts.push(pv);
            assert(parts.map_values(|v: Vec<B>| v@) =~= old_parts.map_values(|v: Vec<B>| v@).push(pv@));
            assert(out@ =~= old_out + pv@);
        }
        i += 1;
    }
    out
}

/// The pipeline: 100 divided by `x` (toward zero), kept only if even, then
/// halved; `Nothing` on division by zero or an odd quotient.
pub open spec fn safe_pipeline_spec(x: i32) -> Maybe<i32> {
    if x == 0 {
        Maybe::Nothing
    } else {
        let q = trunc_div(100, x as int);
        if q % 2 == 0 { Maybe::Just(trunc_div(q, 2) as i32) } else { Maybe::Nothing }
    }
}

/// What the pipeline does, in terms of division: when `q` and `rem` are the
/// quotient and remainder of 100 divided by `x` (`q * x + rem == 100` with
/// `0 <= rem < |x|`, so `q` is rounded toward zero), an even `q` gives
/// `Just(q / 2)` and an odd `q` gives `Nothing`, whatever the sign of `x`.
pub proof fn law_safe_pipeline_divides(x: i32, q: int, rem: int)
    requires
        x != 0,
        q * x + rem == 100,
        0 <= rem < (if x >= 0 { x as int } else { -(x as int) }),
    ensures
        q % 2 == 0 ==> safe_pipeline_spec(x) == Maybe::Just((q / 2) as i32),
        q % 2 != 0 ==> safe_pipeline_spec(x) == Maybe::<i32>::Nothing,
{
    let xi = x as int;
    if xi > 0 {
        vstd::arithmetic::div_mod::lemma_fundamental_div_mod_converse(100, xi, q, rem);
        assert(trunc_div(100, xi) == q);
    } else {
        vstd::arithmetic::mul::lemma_mul_cancels_negatives(q, xi);
        assert((-q) * (-xi) + rem == 100);
        vstd::arithmetic::div_mod::lemma_fundamental_div_mod_converse(100, -xi, -q, rem);
        assert(trunc_div(100, xi) == q);
    }
}

/// Only a zero divisor fails the first step.
pub proof fn law_safe_pipeline_zero()
    ensures
        safe_pipeline_spec(0) == Maybe::<i32>::Nothing,
{
}

/// Three fallible steps chained with `bind`: divide 100 by `x`, keep even
/// quotients, halve.
pub fn safe_pipeline(x: i32) -> (r: Maybe<i32>)
    ensures
        r == safe_pipeline_spec(x),
{
    let step1 = |n: i32| -> (r: Maybe<i32>)
        ensures
            r == (if n == 0 { Maybe::Nothing } else { Maybe::Just(trunc_div(100, n as int) as i32) }),
    {
        if n == 0 { Maybe::Nothing } else { Maybe::Just(div_toward_zero(100, n)) }
    };
    let step2 = |n: i32| -> (r: Maybe<i32>)
        ensures
            r == (if n % 2 == 0 { Maybe::Just(n) } else { Maybe::Nothing }),
    {
        if n % 2 == 0 { Maybe::Just(n) } else { Maybe::Nothing }
    };
    let step3 = |n: i32| -> (r: Maybe<i32>)
        ensures
            r == Maybe::Just(trunc_div(n as int, 2) as i32),
    {
        Maybe::Just(div_toward_zero(n, 2))
    };
    let r = Maybe::Just(x).bind(step1).bind(step2).bind(step3);
    proof {
        if x != 0 {
            assert(-100 <= trunc_div(100, x as int) <= 100);
        }
    }
    r
}

/// Applies an optional function to an optional value.
pub fn option_ap<A, B, F: Fn(A) -> B>(f: Option<F>, a: Option<A>) -> (r: Option<B>)
    requires
        f matches Some(func) && a matches Some(v) ==> func.requires((v,)),
    ensures
        match (f, a) {
            (Some(func), Some(v)) => r matches Some(b) && func.ensures((v,), b),
            _ => r is None,
        },
{
    match (f, a) {
        (Some(func), Some(val)) => Some(func(val)),
        _ => None,
    }
}

/// Combines two optional values with a two-argument function.
pub fn option_lift2<A, B, C, F: Fn(A, B) -> C>(f: F, a: Option<A>, b: Option<B>) -> (r: Option<C>)
    requires
        a matches Some(x) && b matches Some(y) ==> f.requires((x, y)),
    ensures
        match (a, b) {
            (Some(x), Some(y)) => r matches Some(c) && f.ensures((x, y), c),
            _ => r is None,
        },
{
    match (a, b) {
        (Some(a_val), Some(b_val)) => Some(f(a_val, b_val)),
        _ => None,
    }
}

/// Applies a fallible function to a fallible value; the function's error comes first.
pub fn result_ap<A, B, E, F: Fn(A) -> B>(f: Result<F, E>, a: Result<A, E>) -> (r: Result<B, E>)
    requires
        f matches Ok(func) && a matches Ok(v) ==> func.requires((v,)),
    ensures
        match (f, a) {
            (Ok(func), Ok(v)) => r matches Ok(b) && func.ensures((v,), b),
            (Err(e), _) => r == Err::<B, E>(e),
            (Ok(_), Err(e)) => r == Err::<B, E>(e),
        },
{
    match (f, a) {
        (Ok(func), Ok(val)) => Ok(func(val)),
        (Err(e), _) => Err(e),
        (_, Err(e)) => Err(e),
    }
}

/// Combines two fallible values with a two-argument function; the first error wins.
pub fn result_lift2<A, B, C, E, F: Fn(A, B) -> C>(f: F, a: Result<A, E>, b: Result<B, E>) -> (r: Result<C, E>)
    requires
        a matches Ok(x) && b matches Ok(y) ==> f.requires((x, y)),
    ensures
        match (a, b) {
            (Ok(x), Ok(y)) => r matches Ok(c) && f.ensures((x, y), c),
            (Err(e), _) => r == Err::<C, E>(e),
            (Ok(_), Err(e)) => r == Err::<C, E>(e),
        },
{
    match (a, b) {
        (Ok(a_val), Ok(b_val)) => Ok(f(a_val, b_val)),
        (Err(e), _) => Err(e),
        (_, Err(e)) => Err(e),
    }
}

/// Every function applied to every value: for each function in order, its
/// results on all values in order.
pub fn vec_ap<A: Copy, B, F: Fn(A) -> B>(fs: &[F], xs: &[A]) -> (r: Vec<B>)
    requires
        forall|i: int, j: int| #![trigger fs@[i], xs@[j]] 0 <= i < fs@.len() && 0 <= j < xs@.len() ==> fs@[i].requires((xs@[j],)),
    ensures
        exists|rows: Seq<Seq<B>>| #[trigger] rows.flatten() == r@ && rows.len() == fs@.len()
            && forall|i: int| 0 <= i < fs@.len() ==> #[trigger] rows[i].len() == xs@.len()
                && forall|j: int| #![trigger rows[i][j]] 0 <= j < xs@.len() ==> fs@[i].ensures((xs@[j],), rows[i][j]),
{
    let mut result: Vec<B> = Vec::new();
    let ghost mut rows: Seq<Seq<B>> = Seq::empty();
    let mut i: usize = 0;
    while i < fs.len()
        invariant
            i <= fs@.len(),
            forall|a: int, j: int| #![trigger fs@[a], xs@[j]] 0 <= a < fs@.len() && 0 <= j < xs@.len() ==> fs@[a].requires((xs@[j],)),
            rows.len() == i,
            result@ == rows.flatten(),
            forall|a: int| 0 <= a < i ==> #[trigger] rows[a].len() == xs@.len()
                && forall|j: int| #![trigger rows[a][j]] 0 <= j < xs@.len() ==> fs@[a].ensures((xs@[j],), rows[a][j]),
        decreases fs.len() - i,
    {
        let ghost start = result@;
        let ghost mut row: Seq<B> = Seq::empty();
        let mut j: usize = 0;
        while j < xs.len()
            invariant
                i < fs@.len(),
                j <= xs@.len(),
                forall|a: int, q: int| #![trigger fs@[a], xs@[q]] 0 <= a < fs@.len() && 0 <= q < xs@.len() ==> fs@[a].requires((xs@[q],)),
                row.len() == j,
                result@ == start + row,
                forall|q: int| #![trigger row[q]] 0 <= q < j ==> fs@[i as int].ensures((xs@[q],), row[q]),
            decreases xs.len() - j,
        {
            let y = (fs[i])(xs[j]);
            result.push(y);
            proof {
                row = row.push(y);
                assert(result@ =~= start + row);
            }
            j += 1;
        }
        proof {
            rows.lemma_flatten_push(row);
            rows = rows.push(row);
        }
        i += 1;
    }
    result
}

/// Every pair of values combined with `f`: for each `x` in order, `f` on it
/// and every `y` in order.
pub fn vec_lift2<A: Copy, B: Copy, C, F: Fn(A, B) -> C>(f: F, xs: &[A], ys: &[B]) -> (r: Vec<C>)
    requires
        forall|i: int, j: int| #![trigger xs@[i], ys@[j]] 0 <= i < xs@.len() && 0 <= j < ys@.len() ==> f.requires((xs@[i], ys@[j])),
    ensures
        exists|rows: Seq<Seq<C>>| #[trigger] rows.flatten() == r@ && rows.len() == xs@.len()
            && forall|i: int| 0 <= i < xs@.len() ==> #[trigger] rows[i].len() == ys@.len()
                && forall|j: int| #![trigger rows[i][j]] 0 <= j < ys@.len() ==> f.ensures((xs@[i], ys@[j]), rows[i][j]),
{
    let mut result: Vec<C> = Vec::new();
    let ghost mut rows: Seq<Seq<C>> = Seq::empty();
    let mut i: usize = 0;
    while i < xs.len()
        invariant
            i <= xs@.len(),
            forall|p: int, j: int| #![trigger xs@[p], ys@[j]] 0 <= p < xs@.len() && 0 <= j < ys@.len() ==> f.requires((xs@[p], ys@[j])),
            rows.len() == i,
            result@ == rows.flatten(),
            forall|p: int| 0 <= p < i ==> #[trigger] rows[p].len() == ys@.len()
                && forall|j: int| #![trigger rows[p][j]] 0 <= j < ys@.len() ==> f.ensures((xs@[p], ys@[j]), rows[p][j]),
        decreases xs.len() - i,
    {
        let ghost start = result@;
        let ghost mut row: Seq<C> = Seq::empty();
        let mut j: usize = 0;
        while j < ys.len()
            invariant
                i < xs@.len(),
                j <= ys@.len(),
                forall|p: int, q: int| #![trigger xs@[p], ys@[q]] 0 <= p < xs@.len() && 0 <= q < ys@.len() ==> f.requires((xs@[p], ys@[q])),
                row.len() == j,
                result@ == start + row,
                forall|q: int| #![trigger row[q]] 0 <= q < j ==> f.ensures((xs@[i as int], ys@[q]), row[q]),
            decreases ys.len() - j,
        {
            let c = f(xs[i], ys[j]);
            result.push(c);
            proof {
                row = row.push(c);
                assert(result@ =~= start + row);
            }
            j += 1;
        }
        proof {
            rows.lemma_flatten_push(row);
            rows = rows.push(row);
        }
        i += 1;
    }
    result
}

/// A name must be non-empty.
pub fn validate_name(s: &str) -> (r: Result<String, String>)
    ensures
        s@.len() == 0 ==> (r matches Err(m) && m@ == "名前が空です"@),
        s@.len() > 0 ==> (r matches Ok(n) && n@ == s@),
{
    if s.is_empty() {
        Err(String::from_str("名前が空です"))
    } else {
        Ok(String::from_str(s))
    }
}

/// An age must be within `0..=150`.
pub fn validate_age(n: i32) -> (r: Result<u32, String>)
    ensures
        0 <= n <= 150 ==> r == Ok::<u32, String>(n as u32),
        (n < 0 || n > 150) ==> (r matches Err(m) && m@ == "年齢 "@ + int_text(n as int) + " は範囲外です"@),
{
    if n < 0 || n > 150 {
        let mut m = String::from_str("年齢 ");
        push_i64(&mut m, n as i64);
        m.append(" は範囲外です");
        Err(m)
    } else {
        Ok(n as u32)
    }
}

/// All three fields when all are valid, else the first error (name, email, age).
pub fn validate_user_applicative(
    name: Result<String, String>,
    email: Result<String, String>,
    age: Result<u32, String>,
) -> (r: Result<(String, String, u32), String>)
    ensures
        match (name, email, age) {
            (Ok(n), Ok(e), Ok(a)) => r == Ok::<(String, String, u32), String>((n, e, a)),
            (Err(e), _, _) => r == Err::<(String, String, u32), String>(e),
            (Ok(_), Err(e), _) => r == Err::<(String, String, u32), String>(e),
            (Ok(_), Ok(_), Err(e)) => r == Err::<(String, String, u32), String>(e),
        },
{
    match (name, email, age) {
        (Ok(n), Ok(e), Ok(a)) => Ok((n, e, a)),
        (Err(e), _, _) => Err(e),
        (_, Err(e), _) => Err(e),
        (_, _, Err(e)) => Err(e),
    }
}

} // verus!
