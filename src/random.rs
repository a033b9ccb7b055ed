use vstd::prelude::*;

use rand::seq::SliceRandom;
use rand::Rng;

verus! {

/// Relies on rand's `Rng::gen_range` on the thread-local generator: a value
/// drawn from the half-open range `0..bound`, which must not be empty.
#[verifier::external_body]
pub(crate) fn random_below(bound: u64) -> (r: u64)
    requires
        bound > 0,
    ensures
        r < bound,
{
    rand::thread_rng().gen_range(0..bound)
}

/// Relies on rand's `SliceRandom::shuffle` on the thread-local generator: the
/// slice is permuted in place (Fisher-Yates, by swaps).
#[verifier::external_body]
pub(crate) fn shuffle<T>(items: &mut Vec<T>)
    ensures
        final(items)@.to_multiset() == old(items)@.to_multiset(),
{
    items.shuffle(&mut rand::thread_rng())
}

/// A position drawn from `0..len`.
pub fn random_index(len: usize) -> (r: usize)
    requires
        len > 0,
    ensures
        r < len,
{
    random_below(len as u64) as usize
}

/// `length` values drawn from the half-open range `low..high`.
pub fn random_usizes(length: usize, low: usize, high: usize) -> (r: Vec<usize>)
    requires
        low < high,
    ensures
        r.len() == length,
        forall|i: int| 0 <= i < length ==> low <= #[trigger] r[i] < high,
{
    let mut items: Vec<usize> = Vec::with_capacity(length);
    for _i in 0..length
        invariant
            low < high,
            items.len() == _i,
            forall|j: int| 0 <= j < items.len() ==> low <= #[trigger] items[j] < high,
    {
        let offset = random_below((high - low) as u64) as usize;
        items.push(low + offset);
    }
    items
}

/// `length` values drawn from the closed range `low..=high`.
pub fn random_i64s(length: usize, low: i64, high: i64) -> (r: Vec<i64>)
    requires
        low <= high,
        high - low < u64::MAX,
    ensures
        r.len() == length,
        forall|i: int| 0 <= i < length ==> low <= #[trigger] r[i] <= high,
{
    let mut items: Vec<i64> = Vec::with_capacity(length);
    let width = (high as i128 - low as i128 + 1) as u64;
    for _i in 0..length
        invariant
            low <= high,
            width == high - low + 1,
            items.len() == _i,
            forall|j: int| 0 <= j < items.len() ==> low <= #[trigger] items[j] <= high,
    {
        let offset = random_below(width);
        items.push((low as i128 + offset as i128) as i64);
    }
    items
}

} // verus!
