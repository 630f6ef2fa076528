//! Random draws from rand's thread-local generator.
use vstd::prelude::*;
use rand::seq::SliceRandom;
use rand::Rng;

verus! {

/// Relies on rand's `Rng::gen_range(low, high)`, which returns a value in
/// `low..high` and panics when `low >= high`.
#[verifier::external_body]
pub fn random_below(n: usize) -> (r: usize)
    requires
        n > 0,
    ensures
        r < n,
{
    rand::thread_rng().gen_range(0, n)
}

/// Relies on rand's `Rng::gen::<bool>()`: a fair coin.
#[verifier::external_body]
pub fn random_bool() -> (r: bool)
{
    rand::thread_rng().gen::<bool>()
}

/// Relies on rand's `SliceRandom::choose_multiple`: `min(amount, len)`
/// elements of `pool`, taken at distinct positions, in random order.
#[verifier::external_body]
pub fn choose_multiple(pool: &Vec<usize>, amount: usize) -> (r: Vec<usize>)
    ensures
        r@.len() == if amount < pool@.len() { amount as int } else { pool@.len() as int },
        forall|i: int| 0 <= i < r@.len() ==> pool@.contains(#[trigger] r@[i]),
        pool@.no_duplicates() ==> r@.no_duplicates(),
{
    pool.as_slice().choose_multiple(&mut rand::thread_rng(), amount).cloned().collect()
}

} // verus!
