//! Draws from the thread-local random number generator.

use rand::seq::IteratorRandom;
use rand::Rng;
use vstd::prelude::*;

verus! {

/// Relies on `rand::Rng::gen_range` on `rand::thread_rng()`: a value drawn
/// from `0..bound`, which must not be empty.
#[verifier::external_body]
pub(crate) fn random_below(bound: usize) -> (r: usize)
    requires
        bound > 0,
    ensures
        r < bound,
{
    rand::thread_rng().gen_range(0..bound)
}

/// Relies on `rand::seq::IteratorRandom::choose_multiple` on the range `0..n`:
/// reservoir sampling keeps each value of the range at most once, and returns
/// `amount` of them, or all `n` when the range is shorter.
#[verifier::external_body]
pub(crate) fn sample_distinct_below(n: usize, amount: usize) -> (r: Vec<usize>)
    ensures
        r@.len() == if amount < n {
            amount
        } else {
            n
        },
        forall|i: int| 0 <= i < r@.len() ==> r@[i] < n,
        forall|i: int, j: int| 0 <= i < j < r@.len() ==> r@[i] != r@[j],
{
    (0..n).choose_multiple(&mut rand::thread_rng(), amount)
}

} // verus!
