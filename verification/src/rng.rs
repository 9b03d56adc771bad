//! The seeded random source of the generator: a ChaCha stream, consumed
//! only through uniform draws below a bound.
//!
//! The draws are reproducible: the ChaCha stream is a pure function of the
//! seed, and each uniform draw consumes stream words in a way that depends
//! only on the seed and on the bounds drawn before. The name
//! `chacha_range_value` records exactly that, and lets callers prove that
//! two runs from one seed make identical choices.

use vstd::prelude::*;

use rand::Rng;
use rand::SeedableRng;
use rand_chacha::ChaCha8Rng;

verus! {

#[verifier::external_type_specification]
#[verifier::external_body]
pub struct ExChaCha8Rng(ChaCha8Rng);

/// The value drawn below `bound` from the ChaCha stream for `seed` after
/// the draws whose bounds are listed in `history`: a pure function of its
/// arguments, identical in every process and on every machine.
pub uninterp spec fn chacha_range_value(seed: u64, history: Seq<u32>, bound: u32) -> u32;

/// A seeded ChaCha generator together with the record of the bounds it
/// has drawn below, which pins every draw it will make.
pub(crate) struct MazeRng {
    inner: ChaCha8Rng,
    seed: Ghost<u64>,
    history: Ghost<Seq<u32>>,
}

impl MazeRng {
    /// The seed the generator was created from.
    pub(crate) closed spec fn spec_seed(&self) -> u64 {
        self.seed@
    }

    /// The bounds of the draws made so far, oldest first.
    pub(crate) closed spec fn spec_history(&self) -> Seq<u32> {
        self.history@
    }

    /// Relies on `rand_core::SeedableRng::seed_from_u64` for `ChaCha8Rng`:
    /// the initial state is a pure function of the seed, reproducible on
    /// every run, library version and architecture.
    #[verifier::external_body]
    pub(crate) fn from_seed(seed: u64) -> (r: MazeRng)
        ensures
            r.spec_seed() == seed,
            r.spec_history() == Seq::<u32>::empty(),
    {
        MazeRng {
            inner: ChaCha8Rng::seed_from_u64(seed),
            seed: Ghost(arbitrary()),
            history: Ghost(arbitrary()),
        }
    }

    /// Relies on `rand::Rng::gen_range` over `ChaCha8Rng` with a `u32`
    /// range: the result lies below `bound`, and both it and the number of
    /// stream words it consumes are pure 32-bit functions of the stream,
    /// hence of the seed and the bounds drawn before.
    #[verifier::external_body]
    pub(crate) fn draw(&mut self, bound: u32) -> (v: u32)
        requires
            bound >= 1,
        ensures
            v == chacha_range_value(old(self).spec_seed(), old(self).spec_history(), bound),
            v < bound,
            final(self).spec_seed() == old(self).spec_seed(),
            final(self).spec_history() == old(self).spec_history().push(bound),
    {
        self.inner.gen_range(0..bound)
    }
}

} // verus!
