//! Functions that take or return functions: mapping, filtering, folding,
//! function factories and composition.
use vstd::prelude::*;

verus! {

/// `f` applied to every item, in order.
pub fn apply_to_each<T, U, F>(items: &[T], f: F) -> (r: Vec<U>)
    where
        F: Fn(&T) -> U,
    requires
        forall|i: int| 0 <= i < items@.len() ==> f.requires((&items@[i],)),
    ensures
        r@.len() == items@.len(),
        forall|i: int| 0 <= i < items@.len() ==> f.ensures((&items@[i],), #[trigger] r@[i]),
{
    let mut r: Vec<U> = Vec::new();
    let mut i: usize = 0;
    while i < items.len()
        invariant
            i <= items@.len(),
            forall|k: int| 0 <= k < items@.len() ==> f.requires((&items@[k],)),
            r@.len() == i,
            forall|k: int| 0 <= k < i ==> f.ensures((&items@[k],), #[trigger] r@[k]),
        decreases items.len() - i,
    {
        let u = f(&items[i]);
        r.push(u);
        i += 1;
    }
    r
}

/// The items whose flag in `keep` is set, in order.
pub open spec fn select<T>(items: Seq<T>, keep: Seq<bool>) -> Seq<T>
    decreases items.len(),
{
    if items.len() == 0 || keep.len() == 0 {
        Seq::empty()
    } else {
        let rest = select(items.drop_last(), keep.drop_last());
        if keep.last() { rest.push(items.last()) } else { rest }
    }
}

/// The items for which `predicate` answered `true`, in order.
pub fn keep_if<T, F>(items: Vec<T>, predicate: F) -> (r: Vec<T>)
    where
        F: Fn(&T) -> bool,
    requires
        forall|i: int| 0 <= i < items@.len() ==> predicate.requires((&items@[i],)),
    ensures
        exists|keep: Seq<bool>| keep.len() == items@.len()
            && (forall|i: int| 0 <= i < items@.len() ==> predicate.ensures((&items@[i],), #[trigger] keep[i]))
            && r@ == select(items@, keep),
{
    let mut from_back = items;
    let mut reversed: Vec<T> = Vec::new();
    while from_back.len() > 0
        invariant
            from_back@.len() + reversed@.len() == items@.len(),
            from_back@ == items@.take(from_back@.len() as int),
            forall|k: int| 0 <= k < reversed@.len() ==> #[trigger] reversed@[k] == items@[items@.len() - 1 - k],
        decreases from_back.len(),
    {
        let ghost n = from_back@.len();
        let x = from_back.pop().unwrap();
        assert(from_back@ =~= items@.take(n - 1));
        reversed.push(x);
    }
    let mut r: Vec<T> = Vec::new();
    let ghost mut keep: Seq<bool> = Seq::empty();
    while reversed.len() > 0
        invariant
            reversed@.len() <= items@.len(),
            forall|k: int| 0 <= k < reversed@.len() ==> #[trigger] reversed@[k] == items@[items@.len() - 1 - k],
            forall|i: int| 0 <= i < items@.len() ==> predicate.requires((&items@[i],)),
            keep.len() == items@.len() - reversed@.len(),
            forall|i: int| 0 <= i < keep.len() ==> predicate.ensures((&items@[i],), #[trigger] keep[i]),
            r@ == select(items@.take(keep.len() as int), keep),
        decreases reversed.len(),
    {
        let ghost i = keep.len() as int;
        let x = reversed.pop().unwrap();
        assert(x == items@[i]);
        let b = predicate(&x);
        let ghost old_keep = keep;
        let ghost old_r = r@;
        proof {
            keep = keep.push(b);
        }
        if b {
            r.push(x);
        }
        proof {
            let t = items@.take(i + 1);
            assert(t.drop_last() =~= items@.take(i));
            assert(keep.drop_last() =~= old_keep);
            assert(t.last() == items@[i]);
            assert(select(t, keep) == (if b { old_r.push(items@[i]) } else { old_r }));
        }
    }
    assert(items@.take(items@.len() as int) =~= items@);
    r
}

/// `out` is a value that folding `f` over `items` from `init` can give.
pub open spec fn folds_to<T, U, F: Fn(U, &T) -> U>(f: F, init: U, items: Seq<T>, out: U) -> bool
    decreases items.len(),
{
    if items.len() == 0 {
        out == init
    } else {
        exists|mid: U| folds_to(f, init, items.drop_last(), mid) && #[trigger] f.ensures((mid, &items.last()), out)
    }
}

/// Folds `f` over the items from the left, starting from `initial`.
pub fn fold_left<T, U, F>(items: &[T], initial: U, f: F) -> (r: U)
    where
        F: Fn(U, &T) -> U,
    requires
        forall|i: int, acc: U| 0 <= i < items@.len() && folds_to(f, initial, items@.take(i), acc)
            ==> #[trigger] f.requires((acc, &items@[i])),
    ensures
        folds_to(f, initial, items@, r),
{
    let mut acc = initial;
    let mut i: usize = 0;
    assert(items@.take(0).len() == 0);
    while i < items.len()
        invariant
            i <= items@.len(),
            forall|k: int, a: U| 0 <= k < items@.len() && folds_to(f, initial, items@.take(k), a)
                ==> #[trigger] f.requires((a, &items@[k])),
            folds_to(f, initial, items@.take(i as int), acc),
        decreases items.len() - i,
    {
        let ghost prev = acc;
        acc = f(acc, &items[i]);
        proof {
            let t = items@.take(i + 1);
            assert(t.drop_last() =~= items@.take(i as int));
            assert(t.last() == items@[i as int]);
            assert(f.ensures((prev, &t.last()), acc));
        }
        i += 1;
    }
    assert(items@.take(items@.len() as int) =~= items@);
    acc
}

/// The function `x ↦ x + n`.
pub fn make_adder(n: i32) -> (g: impl Fn(i32) -> i32)
    ensures
        forall|x: i32| i32::MIN <= x + n <= i32::MAX ==> #[trigger] g.requires((x,)),
        forall|x: i32, y: i32| g.ensures((x,), y) ==> y == x + n,
{
    move |x: i32| -> (y: i32)
        requires
            i32::MIN <= x + n <= i32::MAX,
        ensures
            y == x + n,
    { x + n }
}

/// The function `x ↦ x * n`.
pub fn make_multiplier(n: i32) -> (g: impl Fn(i32) -> i32)
    ensures
        forall|x: i32| i32::MIN <= x * n <= i32::MAX ==> #[trigger] g.requires((x,)),
        forall|x: i32, y: i32| g.ensures((x,), y) ==> y == x * n,
{
    move |x: i32| -> (y: i32)
        requires
            i32::MIN <= x * n <= i32::MAX,
        ensures
            y == x * n,
    { x * n }
}

/// The function that applies `f` and then `g`.
pub fn compose<A, B, C, F, G>(f: F, g: G) -> (h: impl Fn(A) -> C)
    where
        F: Fn(A) -> B,
        G: Fn(B) -> C,
    ensures
        forall|a: A| f.requires((a,)) && (forall|b: B| f.ensures((a,), b) ==> #[trigger] g.requires((b,)))
            ==> #[trigger] h.requires((a,)),
        forall|a: A, c: C| h.ensures((a,), c) ==> exists|b: B| #[trigger] f.ensures((a,), b) && g.ensures((b,), c),
{
    move |x: A| -> (c: C)
        requires
            f.requires((x,)),
            forall|b: B| f.ensures((x,), b) ==> #[trigger] g.requires((b,)),
        ensures
            exists|b: B| #[trigger] f.ensures((x,), b) && g.ensures((b,), c),
    {
        let b = f(x);
        g(b)
    }
}

} // verus!
