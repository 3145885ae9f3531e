//! New values instead of changed ones.
use vstd::prelude::*;

verus! {

/// Every element doubled, in a new vector; the input is left as it is.
pub fn double_all(numbers: &[i32]) -> (r: Vec<i32>)
    requires
        forall|i: int| 0 <= i < numbers@.len() ==> i32::MIN <= 2 * #[trigger] numbers@[i] <= i32::MAX,
    ensures
        r@.len() == numbers@.len(),
        forall|i: int| 0 <= i < numbers@.len() ==> #[trigger] r@[i] == 2 * numbers@[i],
{
    let mut r: Vec<i32> = Vec::new();
    let mut i: usize = 0;
    while i < numbers.len()
        invariant
            i <= numbers@.len(),
            forall|k: int| 0 <= k < numbers@.len() ==> i32::MIN <= 2 * #[trigger] numbers@[k] <= i32::MAX,
            r@.len() == i,
            forall|k: int| 0 <= k < i ==> #[trigger] r@[k] == 2 * numbers@[k],
        decreases numbers.len() - i,
    {
        r.push(numbers[i] * 2);
        i += 1;
    }
    r
}

/// A copy of `numbers` with `value` added at the end.
pub fn append(numbers: &[i32], value: i32) -> (r: Vec<i32>)
    ensures
        r@ == numbers@.push(value),
{
    let mut r: Vec<i32> = Vec::new();
    let mut i: usize = 0;
    while i < numbers.len()
        invariant
            i <= numbers@.len(),
            r@ == numbers@.take(i as int),
        decreases numbers.len() - i,
    {
        r.push(numbers[i]);
        assert(r@ =~= numbers@.take(i + 1));
        i += 1;
    }
    assert(numbers@.take(numbers@.len() as int) =~= numbers@);
    r.push(value);
    r
}

} // verus!
