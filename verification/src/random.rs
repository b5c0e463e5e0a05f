//! The pseudo-random generators of `rand_chacha` and `rand_pcg`, and the calls of
//! `rand` that draw from them. Both generators are deterministic and portable: what
//! a draw gives is fixed by the seed and by the draws asked for before it. A stream
//! holds a generator together with that seed and the requests made of it so far,
//! each request `(0, low, high)` for a value of `low..=high` or `(1, length, amount)`
//! for `amount` distinct indices of `0..length`. The seed and the history are ghost
//! fields: the seeding functions below set them, and each draw states how it extends
//! the history. What a draw gives is named (`chacha8_range_draw` and the like) as a
//! function of the seed, the history and the request; rand's algorithms themselves
//! are not written out. Each function here is trusted: one call into the outside
//! crate, with the contract that its source and documentation give.

use vstd::prelude::*;
use rand::{RngExt, SeedableRng};
use rand_chacha::ChaCha8Rng;
use rand_pcg::Lcg128Xsl64;

verus! {

#[verifier::external_type_specification]
#[verifier::external_body]
pub struct ExChaCha8Rng(rand_chacha::ChaCha8Rng);

#[verifier::external_type_specification]
#[verifier::external_body]
pub struct ExLcg128Xsl64(rand_pcg::Lcg128Xsl64);

/// The value that `random_range(low..=high)` draws from `ChaCha8Rng::seed_from_u64(seed)`
/// after the requests `history`.
pub uninterp spec fn chacha8_range_draw(seed: u64, history: Seq<(int, int, int)>, low: int, high: int) -> int;

/// The indices that `rand::seq::index::sample(rng, length, amount)` draws from
/// `ChaCha8Rng::seed_from_u64(seed)` after the requests `history`.
pub uninterp spec fn chacha8_sample_draw(seed: u64, history: Seq<(int, int, int)>, length: int, amount: int) -> Seq<usize>;

/// The value that `random_range(low..=high)` draws from `Pcg64::seed_from_u64(seed)`
/// after the requests `history`.
pub uninterp spec fn pcg64_range_draw(seed: u64, history: Seq<(int, int, int)>, low: int, high: int) -> int;

/// The indices that `rand::seq::index::sample(rng, length, amount)` draws from
/// `Pcg64::seed_from_u64(seed)` after the requests `history`.
pub uninterp spec fn pcg64_sample_draw(seed: u64, history: Seq<(int, int, int)>, length: int, amount: int) -> Seq<usize>;

/// A ChaCha8 generator, with the seed it was made from and the requests made of it.
pub struct ChaCha8Stream {
    rng: ChaCha8Rng,
    seed: Ghost<u64>,
    history: Ghost<Seq<(int, int, int)>>,
}

/// A PCG64 generator (rand_pcg's `Pcg64`, that is `Lcg128Xsl64`), with the seed it was
/// made from and the requests made of it.
pub struct Pcg64Stream {
    rng: Lcg128Xsl64,
    seed: Ghost<u64>,
    history: Ghost<Seq<(int, int, int)>>,
}

impl ChaCha8Stream {
    /// The seed the generator was made from.
    pub closed spec fn seed(&self) -> u64 {
        self.seed@
    }

    /// The requests made of the generator so far.
    pub closed spec fn history(&self) -> Seq<(int, int, int)> {
        self.history@
    }
}

impl Pcg64Stream {
    /// The seed the generator was made from.
    pub closed spec fn seed(&self) -> u64 {
        self.seed@
    }

    /// The requests made of the generator so far.
    pub closed spec fn history(&self) -> Seq<(int, int, int)> {
        self.history@
    }
}

/// `ChaCha8Rng::seed_from_u64(seed)` (rand_core's `SeedableRng`): a fresh ChaCha8
/// generator made from `seed`, recorded with that seed and no requests. The state that
/// the seed gives is not stated; the draw names stand for what follows from it.
#[verifier::external_body]
pub(crate) fn chacha8_from_seed(seed: u64) -> (r: ChaCha8Stream)
    ensures
        r.seed() == seed,
        r.history() == Seq::<(int, int, int)>::empty(),
{
    ChaCha8Stream { rng: ChaCha8Rng::seed_from_u64(seed), seed: Ghost(seed), history: Ghost(Seq::empty()) }
}

/// `Pcg64::seed_from_u64(seed)` (rand_core's `SeedableRng`): a fresh PCG64 generator
/// made from `seed`, recorded with that seed and no requests. The state that the seed
/// gives is not stated; the draw names stand for what follows from it.
#[verifier::external_body]
pub(crate) fn pcg64_from_seed(seed: u64) -> (r: Pcg64Stream)
    ensures
        r.seed() == seed,
        r.history() == Seq::<(int, int, int)>::empty(),
{
    Pcg64Stream { rng: Lcg128Xsl64::seed_from_u64(seed), seed: Ghost(seed), history: Ghost(Seq::empty()) }
}

/// `rng.random_range(low..=high)` (rand's `RngExt`) on a ChaCha8 generator: the next
/// value of the inclusive range, which must not be empty (else rand panics): the one
/// that the seed and the earlier requests give. The request joins the history.
#[verifier::external_body]
pub(crate) fn chacha8_range_inclusive(rng: &mut ChaCha8Stream, low: i32, high: i32) -> (r: i32)
    requires
        low <= high,
    ensures
        low <= r <= high,
        r == chacha8_range_draw(old(rng).seed(), old(rng).history(), low as int, high as int),
        final(rng).seed() == old(rng).seed(),
        final(rng).history() == old(rng).history().push((0int, low as int, high as int)),
{
    rng.rng.random_range(low..=high)
}

/// `rng.random_range(low..=high)` (rand's `RngExt`) on a PCG64 generator: the next
/// value of the inclusive range, which must not be empty (else rand panics): the one
/// that the seed and the earlier requests give. The request joins the history.
#[verifier::external_body]
pub(crate) fn pcg64_range_inclusive(rng: &mut Pcg64Stream, low: i32, high: i32) -> (r: i32)
    requires
        low <= high,
    ensures
        low <= r <= high,
        r == pcg64_range_draw(old(rng).seed(), old(rng).history(), low as int, high as int),
        final(rng).seed() == old(rng).seed(),
        final(rng).history() == old(rng).history().push((0int, low as int, high as int)),
{
    rng.rng.random_range(low..=high)
}

/// `rand::seq::index::sample(rng, length, amount).into_vec()` on a ChaCha8 generator:
/// exactly `amount` distinct indices from `0..length` (rand panics where
/// `amount > length`): those that the seed and the earlier requests give. The request
/// joins the history.
#[verifier::external_body]
pub(crate) fn chacha8_sample(rng: &mut ChaCha8Stream, length: usize, amount: usize) -> (r: Vec<usize>)
    requires
        amount <= length,
    ensures
        r@.len() == amount,
        forall|k: int| 0 <= k < amount ==> #[trigger] r@[k] < length,
        forall|k: int, l: int| 0 <= k < l < amount ==> r@[k] != r@[l],
        r@ == chacha8_sample_draw(old(rng).seed(), old(rng).history(), length as int, amount as int),
        final(rng).seed() == old(rng).seed(),
        final(rng).history() == old(rng).history().push((1int, length as int, amount as int)),
{
    rand::seq::index::sample(&mut rng.rng, length, amount).into_vec()
}

/// `rand::seq::index::sample(rng, length, amount).into_vec()` on a PCG64 generator:
/// exactly `amount` distinct indices from `0..length` (rand panics where
/// `amount > length`): those that the seed and the earlier requests give. The request
/// joins the history.
#[verifier::external_body]
pub(crate) fn pcg64_sample(rng: &mut Pcg64Stream, length: usize, amount: usize) -> (r: Vec<usize>)
    requires
        amount <= length,
    ensures
        r@.len() == amount,
        forall|k: int| 0 <= k < amount ==> #[trigger] r@[k] < length,
        forall|k: int, l: int| 0 <= k < l < amount ==> r@[k] != r@[l],
        r@ == pcg64_sample_draw(old(rng).seed(), old(rng).history(), length as int, amount as int),
        final(rng).seed() == old(rng).seed(),
        final(rng).history() == old(rng).history().push((1int, length as int, amount as int)),
{
    rand::seq::index::sample(&mut rng.rng, length, amount).into_vec()
}

} // verus!
