use rand::rngs::OsRng;
use rand::rngs::StdRng;
use rand::seq::SliceRandom;
use rand::Rng;
use rand::SeedableRng;
use vstd::prelude::*;

verus! {

/// The generator of the `rand` crate that the dice hold. Nothing is known of
/// what is inside it.
#[verifier::external_type_specification]
#[verifier::external_body]
pub struct ExStdRng(StdRng);

/// Makes a generator with `rand::SeedableRng::seed_from_u64`.
///
/// Nothing is claimed of the generator.
#[verifier::external_body]
fn generator_from_seed(seed: u64) -> StdRng {
    StdRng::seed_from_u64(seed)
}

/// Makes a generator with `rand::SeedableRng::from_rng` on `rand::rngs::OsRng`,
/// which asks the operating system for a seed and hands a failure back as
/// an error; there is no generator then.
///
/// Nothing is claimed of the generator, nor of when there is one.
#[verifier::external_body]
fn generator_from_entropy() -> Option<StdRng> {
    StdRng::from_rng(OsRng).ok()
}

/// Draws a position below `bound` with `rand::Rng::gen_range`.
///
/// Not proved: the call returns a value of the half-open range `0..bound`.
/// The range must not be empty, or the call panics.
#[verifier::external_body]
fn random_below(rng: &mut StdRng, bound: usize) -> (position: usize)
    requires
        bound > 0,
    ensures
        position < bound,
{
    rng.gen_range(0..bound)
}

/// Reorders `items` with `rand::seq::SliceRandom::shuffle`.
///
/// Not proved: the call only swaps elements of the slice, so the same items
/// are there afterwards, each as often as before.
#[verifier::external_body]
fn shuffle_items<T>(rng: &mut StdRng, items: &mut Vec<T>)
    ensures
        final(items)@.to_multiset() == old(items)@.to_multiset(),
{
    items.shuffle(rng);
}

/// The source of all chance in a game. Dice made from the same seed give the
/// same numbers in the same order.
pub struct Dice {
    rng: StdRng,
}

impl Dice {
    /// Dice that repeat themselves: the same seed gives the same game.
    pub fn from_seed(seed: u64) -> (dice: Self) {
        Dice { rng: generator_from_seed(seed) }
    }

    /// Dice with a seed from the operating system, if it gives one.
    pub fn from_entropy() -> (dice: Option<Self>) {
        match generator_from_entropy() {
            Some(rng) => Some(Dice { rng }),
            None => None,
        }
    }

    /// A position below `bound`, drawn at random.
    pub fn below(&mut self, bound: usize) -> (position: usize)
        requires
            bound > 0,
        ensures
            position < bound,
    {
        random_below(&mut self.rng, bound)
    }

    /// Puts `items` in a random order.
    pub fn shuffle<T>(&mut self, items: &mut Vec<T>)
        ensures
            final(items)@.to_multiset() == old(items)@.to_multiset(),
    {
        shuffle_items(&mut self.rng, items)
    }
}

} // verus!
