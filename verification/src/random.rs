use vstd::prelude::*;
use rand::seq::IteratorRandom;
use rand::SeedableRng;

verus! {

/// `amount` distinct positions below `len`, drawn at random: rand's
/// `IteratorRandom::choose_multiple` over `0..len` with the thread-local
/// generator. It fills a reservoir with the first `amount` positions and
/// only overwrites slots later, so each position comes out at most once,
/// and it returns `amount` of them when `len` has that many. The order and
/// the choice are random and not stated.
#[verifier::external_body]
pub(crate) fn choose_multiple_indices(len: usize, amount: usize) -> (r: Vec<usize>)
    requires
        amount <= len,
    ensures
        r@.len() == amount,
        r@.no_duplicates(),
        forall|i: int| 0 <= i < r@.len() ==> r@[i] < len,
{
    (0..len).choose_multiple(&mut rand::thread_rng(), amount)
}

/// One position below `len`, drawn at random: rand's `IteratorRandom::choose`
/// over `0..len` with a `ChaCha20Rng` seeded from the operating system. The
/// range knows its exact length, so the result is `None` exactly when `len`
/// is zero. Which position comes out is not stated.
#[verifier::external_body]
pub(crate) fn choose_index(len: usize) -> (r: Option<usize>)
    ensures
        r is None <==> len == 0,
        r matches Some(i) ==> i < len,
{
    let mut rng = rand_chacha::ChaCha20Rng::from_entropy();
    (0..len).choose(&mut rng)
}

} // verus!
