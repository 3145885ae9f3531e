//! Closures: applying a function twice, and sorting by a computed key.
use vstd::prelude::*;
use vstd::string::*;

verus! {

/// `f(f(x))`.
pub fn apply_twice<T, F>(f: F, x: T) -> (r: T)
    where
        F: Fn(T) -> T,
    requires
        f.requires((x,)),
        forall|y: T| #[trigger] f.ensures((x,), y) ==> f.requires((y,)),
    ensures
        exists|y: T| #[trigger] f.ensures((x,), y) && f.ensures((y,), r),
{
    let y = f(x);
    f(y)
}

/// The length of a string in UTF-8 bytes, as `str::len` reports it.
pub open spec fn byte_len(s: String) -> nat {
    (vstd::utf8::encode_utf8(s@).len() as usize) as nat
}

/// The strings of byte length `l`, in order.
pub open spec fn of_len(s: Seq<String>, l: nat) -> Seq<String> {
    s.filter(|w: String| byte_len(w) == l)
}

/// Inserts `x` in front of every string at least as long; the strings before
/// the insertion point are all shorter.
fn insert_before_longer(v: &mut Vec<String>, x: String)
    requires
        forall|i: int, j: int| 0 <= i <= j < old(v)@.len() ==> byte_len(#[trigger] old(v)@[i]) <= byte_len(#[trigger] old(v)@[j]),
    ensures
        forall|i: int, j: int| 0 <= i <= j < final(v)@.len() ==> byte_len(#[trigger] final(v)@[i]) <= byte_len(#[trigger] final(v)@[j]),
        forall|l: nat| #[trigger] of_len(final(v)@, l) == (if byte_len(x) == l { seq![x] + of_len(old(v)@, l) } else { of_len(old(v)@, l) }),
{
    let xl = x.as_str().len();
    let mut p: usize = 0;
    while p < v.len()
        invariant
            p <= v@.len(),
            xl == byte_len(x),
            forall|k: int| 0 <= k < p ==> byte_len(#[trigger] v@[k]) < byte_len(x),
        ensures
            p <= v@.len(),
            forall|k: int| 0 <= k < p ==> byte_len(#[trigger] v@[k]) < byte_len(x),
            p == v@.len() || byte_len(v@[p as int]) >= byte_len(x),
        decreases v.len() - p,
    {
        if v[p].as_str().len() >= xl {
            break;
        }
        p += 1;
    }
    let ghost before = v@;
    v.insert(p, x);
    proof {
        let lo = before.subrange(0, p as int);
        let hi = before.subrange(p as int, before.len() as int);
        assert(before =~= lo + hi);
        assert(v@ =~= lo + (seq![x] + hi));
        assert forall|l: nat| #[trigger] of_len(v@, l) == (if byte_len(x) == l { seq![x] + of_len(before, l) } else { of_len(before, l) }) by {
            let pred = |w: String| byte_len(w) == l;
            Seq::filter_distributes_over_add(lo, seq![x] + hi, pred);
            Seq::filter_distributes_over_add(lo, hi, pred);
            hi.lemma_filter_prepend(x, pred);
            if byte_len(x) == l {
                assert forall|k: int| 0 <= k < lo.len() implies !pred(#[trigger] lo[k]) by {
                    assert(byte_len(before[k]) < byte_len(x));
                }
                lo.lemma_all_neg_filter_empty(pred);
                assert(lo.filter(pred) =~= Seq::<String>::empty());
                assert(seq![x] + of_len(before, l) =~= seq![x] + hi.filter(pred));
            }
        }
        assert forall|i: int, j: int| 0 <= i <= j < v@.len() implies byte_len(#[trigger] v@[i]) <= byte_len(#[trigger] v@[j]) by {
            if i < p && j == p {
            } else if i < p && j > p {
                assert(v@[j] == before[j - 1]);
            } else if i == p && j > p {
                assert(v@[j] == before[j - 1]);
                assert(byte_len(before[p as int]) <= byte_len(before[j - 1]));
            } else if i > p {
                assert(v@[i] == before[i - 1] && v@[j] == before[j - 1]);
            }
        }
    }
}

/// The words ordered by byte length; words of equal length keep their order.
pub fn sort_by_length(words: Vec<String>) -> (r: Vec<String>)
    ensures
        forall|i: int, j: int| 0 <= i <= j < r@.len() ==> byte_len(#[trigger] r@[i]) <= byte_len(#[trigger] r@[j]),
        forall|l: nat| #[trigger] of_len(r@, l) == of_len(words@, l),
{
    let mut rest = words;
    let mut sorted: Vec<String> = Vec::new();
    while rest.len() > 0
        invariant
            rest@ == words@.take(rest@.len() as int),
            rest@.len() <= words@.len(),
            forall|i: int, j: int| 0 <= i <= j < sorted@.len() ==> byte_len(#[trigger] sorted@[i]) <= byte_len(#[trigger] sorted@[j]),
            forall|l: nat| #[trigger] of_len(sorted@, l) == of_len(words@.skip(rest@.len() as int), l),
        decreases rest.len(),
    {
        let ghost n = rest@.len();
        let x = rest.pop().unwrap();
        proof {
            assert(x == words@[n - 1]);
            assert(rest@ =~= words@.take(n - 1));
            assert(words@.skip(n - 1) =~= seq![x] + words@.skip(n as int));
        }
        insert_before_longer(&mut sorted, x);
        proof {
            assert forall|l: nat| #[trigger] of_len(sorted@, l) == of_len(words@.skip(rest@.len() as int), l) by {
                words@.skip(n as int).lemma_filter_prepend(x, |w: String| byte_len(w) == l);
            }
        }
    }
    assert(words@.skip(0) =~= words@);
    sorted
}

} // verus!
