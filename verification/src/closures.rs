//! Closures and higher-order functions: capturing, `Fn`/`FnMut`/`FnOnce`
//! parameters, returning functions, currying, and repeated application.
use vstd::prelude::*;
use std::collections::HashMap;
use vstd::std_specs::hash::obeys_key_model;

verus! {

/// A function that adds `offset` to its argument.
pub fn make_offset_adder(offset: i32) -> (f: impl Fn(i32) -> i32)
    ensures
        forall|x: i32| i32::MIN <= x + offset <= i32::MAX ==> #[trigger] f.requires((x,)),
        forall|x: i32, r: i32| f.ensures((x,), r) ==> r == x + offset,
{
    move |x: i32| -> (r: i32)
        requires
            i32::MIN <= x + offset <= i32::MAX,
        ensures
            r == x + offset,
    { x + offset }
}

/// Applies `f` to every element, collecting the results in order.
pub fn map_fn<T, F>(values: &[T], f: F) -> (r: Vec<T>)
    where
        T: Copy,
        F: Fn(T) -> T,
    requires
        forall|i: int| 0 <= i < values@.len() ==> f.requires((#[trigger] values@[i],)),
    ensures
        r@.len() == values@.len(),
        forall|i: int| 0 <= i < values@.len() ==> f.ensures((values@[i],), #[trigger] r@[i]),
{
    let mut r: Vec<T> = Vec::new();
    let mut i: usize = 0;
    while i < values.len()
        invariant
            i <= values@.len(),
            forall|j: int| 0 <= j < values@.len() ==> f.requires((#[trigger] values@[j],)),
            r@.len() == i,
            forall|j: int| 0 <= j < i ==> f.ensures((values@[j],), #[trigger] r@[j]),
        decreases values.len() - i,
    {
        let y = f(values[i]);
        r.push(y);
        i += 1;
    }
    r
}

/// Applies `f` to every element in order, collecting the results: each result
/// is one that `f`'s contract allows for its element. `f` must accept every
/// input in any state it can reach.
pub fn map_fn_mut<F>(values: &[i32], mut f: F) -> (r: Vec<i32>)
    where
        F: FnMut(i32) -> i32,
    requires
        forall|g: F, x: i32| #[trigger] g.requires((x,)),
    ensures
        r@.len() == values@.len(),
        forall|k: int| 0 <= k < r@.len() ==> f.ensures((values@[k],), #[trigger] r@[k]),
{
    let ghost f0 = f;
    let mut r: Vec<i32> = Vec::new();
    let mut i: usize = 0;
    while i < values.len()
        invariant
            i <= values@.len(),
            forall|g: F, x: i32| #[trigger] g.requires((x,)),
            r@.len() == i,
            f == f0,
            forall|k: int| 0 <= k < r@.len() ==> f0.ensures((values@[k],), #[trigger] r@[k]),
        decreases values.len() - i,
    {
        let y = f(values[i]);
        r.push(y);
        i += 1;
    }
    r
}

/// Calls `f` exactly once, consuming it.
pub fn call_once<F: FnOnce() -> String>(f: F) -> (r: String)
    requires
        f.requires(()),
    ensures
        f.ensures((), r),
{
    f()
}

/// `f ∘ g`: the function that applies `g` and then `f`.
pub fn compose<A, B, C, F, G>(f: F, g: G) -> (h: impl Fn(A) -> C)
    where
        F: Fn(B) -> C,
        G: Fn(A) -> B,
    requires
        forall|a: A| #[trigger] g.requires((a,)),
        forall|a: A, b: B| #[trigger] g.ensures((a,), b) ==> f.requires((b,)),
    ensures
        forall|a: A| #[trigger] h.requires((a,)),
        forall|a: A, c: C| h.ensures((a,), c) ==> exists|b: B| g.ensures((a,), b) && f.ensures((b,), c),
{
    move |x: A| -> (c: C)
        requires
            forall|a: A| #[trigger] g.requires((a,)),
            forall|a: A, b: B| #[trigger] g.ensures((a,), b) ==> f.requires((b,)),
        ensures
            exists|b: B| g.ensures((x,), b) && f.ensures((b,), c),
    {
        let b = g(x);
        f(b)
    }
}

/// Negation when `negate` holds, the identity otherwise.
pub fn choose_transform(negate: bool) -> (f: impl Fn(i32) -> i32)
    ensures
        forall|x: i32| (negate ==> x != i32::MIN) ==> #[trigger] f.requires((x,)),
        forall|x: i32, r: i32| f.ensures((x,), r) ==> r == (if negate { -x } else { x as int }),
{
    move |x: i32| -> (r: i32)
        requires
            negate ==> x != i32::MIN,
        ensures
            r == (if negate { -x } else { x as int }),
    {
        if negate { -x } else { x }
    }
}

/// Applies a plain function to `x`.
pub fn apply_fn_ptr<F: Fn(i32) -> i32>(f: F, x: i32) -> (r: i32)
    requires
        f.requires((x,)),
    ensures
        f.ensures((x,), r),
{
    f(x)
}

/// Applies a (possibly capturing) closure to `x`.
pub fn apply_closure<F: Fn(i32) -> i32>(f: F, x: i32) -> (r: i32)
    requires
        f.requires((x,)),
    ensures
        f.ensures((x,), r),
{
    f(x)
}

/// Curried addition: `add(x)(y) == x + y`.
pub fn add(x: i32) -> (f: impl Fn(i32) -> i32)
    ensures
        forall|y: i32| i32::MIN <= x + y <= i32::MAX ==> #[trigger] f.requires((y,)),
        forall|y: i32, r: i32| f.ensures((y,), r) ==> r == x + y,
{
    move |y: i32| -> (r: i32)
        requires
            i32::MIN <= x + y <= i32::MAX,
        ensures
            r == x + y,
    { x + y }
}

/// Two-argument curried product: `multiply2(x, y)(z) == x * y * z`.
pub fn multiply2(x: i32, y: i32) -> (f: impl Fn(i32) -> i32)
    ensures
        forall|z: i32| i32::MIN <= x * y <= i32::MAX && i32::MIN <= x * y * z <= i32::MAX ==> #[trigger] f.requires((z,)),
        forall|z: i32, r: i32| f.ensures((z,), r) ==> r == x * y * z,
{
    move |z: i32| -> (r: i32)
        requires
            i32::MIN <= x * y <= i32::MAX,
            i32::MIN <= x * y * z <= i32::MAX,
        ensures
            r == x * y * z,
    { x * y * z }
}

/// `f(f(x))`, applied to a clone of `x`.
pub fn apply_twice<T: Clone, F: Fn(T) -> T>(f: F, x: T) -> (r: T)
    requires
        forall|c: T| cloned::<T>(x, c) ==> #[trigger] f.requires((c,)),
        forall|c: T, y: T| cloned::<T>(x, c) && #[trigger] f.ensures((c,), y) ==> f.requires((y,)),
    ensures
        applied_n_times(f, 2, x, r),
{
    let c = x.clone();
    assert(cloned::<T>(x, c));
    let y = f(c);
    let r = f(y);
    proof { law_apply_twice_is_two_applications(f, x, c, y, r); }
    r
}

/// `r` is a possible result of applying `f` to (a clone of) `x`, `n` times over.
pub open spec fn applied_n_times<T: Clone, F: Fn(T) -> T>(f: F, n: nat, x: T, r: T) -> bool
    decreases n,
{
    if n == 0 {
        r == x
    } else {
        exists|y: T, c: T| applied_n_times(f, (n - 1) as nat, x, y) && #[trigger] cloned::<T>(y, c) && f.ensures((c,), r)
    }
}

/// Applies `f` `n` times to `x` (each time to a clone of the previous value).
pub fn apply_n_times<T: Clone, F: Fn(T) -> T>(f: F, n: usize, x: T) -> (r: T)
    requires
        forall|k: nat, y: T, c: T| #![trigger applied_n_times(f, k, x, y), cloned::<T>(y, c)] k < n && applied_n_times(f, k, x, y) && cloned::<T>(y, c) ==> f.requires((c,)),
    ensures
        applied_n_times(f, n as nat, x, r),
{
    let ghost x0 = x;
    let mut result = x;
    let mut i: usize = 0;
    assert(applied_n_times(f, 0, x0, result));
    while i < n
        invariant
            i <= n,
            forall|k: nat, y: T, c: T| #![trigger applied_n_times(f, k, x0, y), cloned::<T>(y, c)] k < n && applied_n_times(f, k, x0, y) && cloned::<T>(y, c) ==> f.requires((c,)),
            applied_n_times(f, i as nat, x0, result),
        decreases n - i,
    {
        let c = result.clone();
        assert(cloned::<T>(result, c));
        let next = f(c);
        assert(applied_n_times(f, i as nat, x0, result) && cloned::<T>(result, c) && f.ensures((c,), next));
        assert(applied_n_times(f, (i + 1) as nat, x0, next));
        result = next;
        i += 1;
    }
    result
}

/// Applying twice is applying `n = 2` times: every result of
/// [`apply_twice`] is a possible result of [`apply_n_times`] with `n == 2`,
/// and both are described by the same relation.
pub proof fn law_apply_twice_is_two_applications<T: Clone, F: Fn(T) -> T>(f: F, x: T, c: T, y: T, r: T)
    requires
        cloned::<T>(x, c),
        f.ensures((c,), y),
        f.ensures((y,), r),
    ensures
        applied_n_times(f, 2, x, r),
{
    assert(applied_n_times(f, 0, x, x));
    assert(applied_n_times(f, 1, x, y));
    assert(cloned::<T>(y, y));
}

/// A function with a cache of the results it has computed.
pub struct Memoize<A, B, F> {
    cache: HashMap<A, B>,
    func: F,
}

impl<A: Eq + std::hash::Hash + Copy, B: Copy, F: Fn(A) -> B> Memoize<A, B, F> {
    /// Every cached result is one the function gives for its argument.
    pub open spec fn keeps_results(self) -> bool {
        forall|k: A| #[trigger] self.cached().contains_key(k) ==> self.function().ensures((k,), self.cached()[k])
    }

    /// The cached results, by argument.
    pub closed spec fn cached(self) -> Map<A, B> {
        self.cache@
    }

    /// The function whose results are cached.
    pub closed spec fn function(self) -> F {
        self.func
    }

    /// An empty cache in front of `func`.
    pub fn new(func: F) -> (m: Self)
        ensures
            m.cached() == Map::<A, B>::empty(),
            m.function() == func,
            m.keeps_results(),
    {
        Memoize { cache: HashMap::new(), func }
    }

    /// The cached result for `arg`, or the function's result for it, which is
    /// then cached.
    pub fn call(&mut self, arg: A) -> (r: B)
        requires
            obeys_key_model::<A>(),
            old(self).function().requires((arg,)),
            old(self).keeps_results(),
        ensures
            final(self).keeps_results(),
            final(self).function() == old(self).function(),
            old(self).function().ensures((arg,), r),
            old(self).cached().contains_key(arg) ==> r == old(self).cached()[arg] && final(self).cached() == old(self).cached(),
            !old(self).cached().contains_key(arg) ==> old(self).function().ensures((arg,), r)
                && final(self).cached() == old(self).cached().insert(arg, r),
    {
        broadcast use vstd::std_specs::hash::group_hash_axioms;
        match self.cache.get(&arg) {
            Some(cached) => {
                assert(self.cached().contains_key(arg));
                return *cached;
            }
            None => {},
        }
        let result = (self.func)(arg);
        let ghost before = self.cached();
        self.cache.insert(arg, result);
        assert forall|k: A| #[trigger] self.cached().contains_key(k) implies self.function().ensures((k,), self.cached()[k]) by {
            if k != arg {
                assert(before.contains_key(k));
            }
        }
        result
    }

    /// How many results are cached.
    pub fn cache_size(&self) -> (n: usize)
        requires
            obeys_key_model::<A>(),
        ensures
            n == self.cached().len(),
    {
        broadcast use vstd::std_specs::hash::group_hash_axioms;
        self.cache.len()
    }
}

} // verus!
