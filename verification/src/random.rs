//! Draws from the thread-local generator of `rand`.
//!
//! Each draw depends on the generator's state, so the contracts only say what
//! holds of every outcome.
use rand::seq::SliceRandom;
use rand::Rng;
use vstd::prelude::*;

verus! {

/// Calls `rand::Rng::gen_range` on `low..high` with `rand::thread_rng()`.
/// The range must be nonempty (the call panics otherwise); the result lies in it.
/// Which value comes back is left unsaid: it depends on the generator's state.
#[verifier::external_body]
pub(crate) fn index_between(low: usize, high: usize) -> (r: usize)
    requires
        low < high,
    ensures
        low <= r < high,
{
    rand::thread_rng().gen_range(low..high)
}

/// Calls `rand::random::<bool>()`. Either value may come back.
#[verifier::external_body]
pub(crate) fn coin_flip() -> bool {
    rand::random()
}

/// Calls `rand::seq::SliceRandom::choose` on `pairs` with `rand::thread_rng()`, copying
/// the chosen pair out. It returns `None` exactly when `pairs` is empty and otherwise one
/// of its entries; which entry is left unsaid: it depends on the generator's state.
#[verifier::external_body]
pub(crate) fn choose_pair(pairs: &Vec<(usize, usize)>) -> (r: Option<(usize, usize)>)
    ensures
        r is None <==> pairs@.len() == 0,
        r matches Some(p) ==> pairs@.contains(p),
{
    pairs.choose(&mut rand::thread_rng()).copied()
}

} // verus!
