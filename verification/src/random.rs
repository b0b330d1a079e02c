use vstd::prelude::*;

use rand::{Rng, SeedableRng};
use rand_chacha::ChaCha20Rng;

verus! {

#[verifier::external_type_specification]
#[verifier::external_body]
pub struct ExChaCha20Rng(ChaCha20Rng);

/// The value of one bounded draw from a seeded generator: a function of the
/// seed, the bounds of all earlier draws, and the bound of this draw.
pub uninterp spec fn draw_value(seed: u64, trace: Seq<int>, bound: int) -> int;

/// A source of uniformly distributed integers, backed by a ChaCha20 stream
/// cipher. A source built from a known seed yields a reproducible sequence
/// of draws; one built from system entropy promises only each draw's range.
pub struct RandomSource {
    rng: ChaCha20Rng,
    key: Ghost<Option<u64>>,
    trace: Ghost<Seq<int>>,
}

impl RandomSource {
    /// The seed this source was built from, if it was built from one.
    pub closed spec fn key(self) -> Option<u64> {
        self.key@
    }

    /// The bounds of the draws made so far, oldest first.
    pub closed spec fn trace(self) -> Seq<int> {
        self.trace@
    }

    /// Whether every later draw is pinned down by `draw_value`.
    pub open spec fn seeded(self) -> bool {
        self.key() is Some
    }

    /// The seed of a seeded source.
    pub open spec fn seed(self) -> u64
        recommends
            self.seeded(),
    {
        self.key()->Some_0
    }

    /// A reproducible source: every draw is pinned down by `draw_value`
    /// applied to the seed.
    pub fn from_seed(seed: u64) -> (r: RandomSource)
        ensures
            r.key() == Some(seed),
            r.trace() == Seq::<int>::empty(),
    {
        RandomSource {
            rng: chacha_from_seed(seed),
            key: Ghost(Some(seed)),
            trace: Ghost(Seq::empty()),
        }
    }

    /// A source seeded from system entropy: nothing is assumed of the
    /// stream beyond the range of each draw.
    pub fn from_entropy() -> (r: RandomSource)
        ensures
            r.key() is None,
            r.trace() == Seq::<int>::empty(),
    {
        RandomSource { rng: chacha_from_entropy(), key: Ghost(None), trace: Ghost(Seq::empty()) }
    }

    /// Relies on rand's `Rng::gen_range` over `ChaCha20Rng`: the draw lies
    /// below the bound, and for a seeded generator its value is a function
    /// of the seed and the bounds drawn so far.
    #[verifier::external_body]
    pub fn draw_below(&mut self, bound: usize) -> (r: usize)
        requires
            bound > 0,
        ensures
            r < bound,
            final(self).key() == old(self).key(),
            final(self).trace() == old(self).trace().push(bound as int),
            old(self).seeded() ==> r as int == draw_value(
                old(self).seed(),
                old(self).trace(),
                bound as int,
            ),
    {
        self.rng.gen_range(0u64..(bound as u64)) as usize
    }
}

/// Relies on rand_chacha's `ChaCha20Rng::seed_from_u64`: the stream it
/// yields is a function of the seed alone, on every machine.
#[verifier::external_body]
fn chacha_from_seed(seed: u64) -> ChaCha20Rng {
    ChaCha20Rng::seed_from_u64(seed)
}

/// Relies on rand_chacha's `ChaCha20Rng::from_entropy` to gather a seed
/// from the operating system.
#[verifier::external_body]
fn chacha_from_entropy() -> ChaCha20Rng {
    ChaCha20Rng::from_entropy()
}

} // verus!
