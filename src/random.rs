use rand::Rng;
use rand::rngs::StdRng;
use vstd::prelude::*;

verus! {

/// Declares `rand::rngs::StdRng`, carried through opaquely: the seedable
/// generator that every stochastic decision of the engine draws from, so
/// that a seeded run can be replayed.
#[verifier::external_type_specification]
#[verifier::external_body]
pub struct ExStdRng(StdRng);

/// Relies on `rand::Rng::gen_range`, which returns a value of the half-open
/// range it is given and panics only when that range is empty.
#[verifier::external_body]
pub(crate) fn below(rng: &mut StdRng, bound: usize) -> (r: usize)
    requires
        bound > 0,
    ensures
        r < bound,
{
    rng.gen_range(0..bound)
}

/// Relies on `rand::seq::index::sample`, which returns exactly `amount`
/// distinct indices of `0..length` and panics only when `amount > length`.
#[verifier::external_body]
pub(crate) fn two_distinct_below(rng: &mut StdRng, length: usize) -> (r: (usize, usize))
    requires
        length >= 2,
    ensures
        r.0 < length,
        r.1 < length,
        r.0 != r.1,
{
    let picked = rand::seq::index::sample(rng, length, 2);
    (picked.index(0), picked.index(1))
}

} // verus!
