use rand::seq::SliceRandom;
use rand::Rng;
use vstd::prelude::*;

verus! {

/// Draws a number between `low` and `high`, both included, from the thread's
/// generator, by `rand::Rng::gen_range` on an inclusive range.
///
/// Trusted: `gen_range` hands back a value of the range it was given. It
/// panics on an empty range, which `low <= high` rules out. Which value comes
/// is left open.
#[verifier::external_body]
pub(crate) fn random_between(low: usize, high: usize) -> (n: usize)
    requires
        low <= high,
    ensures
        low <= n <= high,
{
    rand::thread_rng().gen_range(low..=high)
}

/// Picks one of `items` with the thread's generator, by
/// `rand::seq::SliceRandom::choose`.
///
/// Trusted: `choose` gives `None` for an empty slice and otherwise the item
/// at some position of the slice. Which position is left open.
#[verifier::external_body]
pub(crate) fn choose_one(items: &Vec<usize>) -> (picked: Option<usize>)
    ensures
        items@.len() == 0 ==> picked is None,
        items@.len() > 0 ==> picked is Some && items@.contains(picked->0),
{
    items.choose(&mut rand::thread_rng()).copied()
}

} // verus!
