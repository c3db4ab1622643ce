//! Where the dice get their numbers from.

use rand::distributions::{Distribution, Uniform};
use rand::rngs::StdRng;
use rand::SeedableRng;
use vstd::prelude::*;

verus! {

/// `rand::rngs::StdRng`, a seedable generator. Nothing inside it is visible
/// here; it is only handed on to the calls below.
#[verifier::external_type_specification]
#[verifier::external_body]
pub struct ExStdRng(StdRng);

/// The state of a generator: the words it holds, which fix every number that
/// it will give.
pub uninterp spec fn state_of(generator: StdRng) -> Seq<u32>;

/// The state of the generator that a seed builds.
pub uninterp spec fn seeded_state(seed: u64) -> Seq<u32>;

/// The number that a generator in the given state gives when a number
/// between `low` and `high`, both included, is asked of it.
pub uninterp spec fn sampled(state: Seq<u32>, low: i64, high: i64) -> i64;

/// The state that a generator is left in by giving that number.
pub uninterp spec fn state_sampled(state: Seq<u32>, low: i64, high: i64) -> Seq<u32>;

/// The number that a generator in the given state gives for a die of `sides`
/// sides: one between 1 and `sides`.
pub open spec fn drawn(state: Seq<u32>, sides: i64) -> i64 {
    sampled(state, 1, sides)
}

/// The state that a generator is left in by the roll of such a die.
pub open spec fn state_after(state: Seq<u32>, sides: i64) -> Seq<u32> {
    state_sampled(state, 1, sides)
}

/// Calls `StdRng::seed_from_u64`, which expands the seed by fixed arithmetic
/// into the generator's first state: the state is a function of the seed
/// alone.
#[verifier::external_body]
fn seed_generator(seed: u64) -> (r: StdRng)
    ensures
        state_of(r) == seeded_state(seed),
{
    StdRng::seed_from_u64(seed)
}

/// Calls `Uniform::new_inclusive(low, high)` and samples it once from the
/// given generator. Sampling reads words from the generator and nothing
/// else, so the number drawn and the state left behind are functions of the
/// state before and of the bounds. The number lies between `low` and `high`,
/// both included; `new_inclusive` panics on an empty range, so `low` is no
/// greater than `high`.
#[verifier::external_body]
fn sample_seeded(generator: &mut StdRng, low: i64, high: i64) -> (r: i64)
    requires
        low <= high,
    ensures
        low <= r <= high,
        r == sampled(state_of(*old(generator)), low, high),
        state_of(*final(generator)) == state_sampled(state_of(*old(generator)), low, high),
{
    Uniform::new_inclusive(low, high).sample(generator)
}

/// Calls `Uniform::new_inclusive(low, high)` and samples it once from
/// `rand::thread_rng()`. The number drawn lies between `low` and `high`,
/// both included; `new_inclusive` panics on an empty range, so `low` is no
/// greater than `high`.
#[verifier::external_body]
fn sample_thread(low: i64, high: i64) -> (r: i64)
    requires
        low <= high,
    ensures
        low <= r <= high,
{
    Uniform::new_inclusive(low, high).sample(&mut rand::thread_rng())
}

/// A source of die rolls.
pub enum DiceSource {
    /// The generator of the calling thread, seeded by the system.
    Thread,
    /// A generator that repeats the same rolls for the same seed.
    Seeded(StdRng),
}

impl DiceSource {
    /// The state that fixes the rolls to come: that of its generator for a
    /// seeded source, none for the thread's, whose rolls nothing fixes.
    pub open spec fn state(self) -> Option<Seq<u32>> {
        match self {
            DiceSource::Thread => None,
            DiceSource::Seeded(generator) => Some(state_of(generator)),
        }
    }

    /// The source that draws from the calling thread's generator.
    pub fn thread() -> (r: DiceSource)
        ensures
            r is Thread,
    {
        DiceSource::Thread
    }

    /// A source whose rolls are fixed by `seed`: it starts in the state that
    /// the seed builds, so two sources of one seed roll alike.
    pub fn seeded(seed: u64) -> (r: DiceSource)
        ensures
            r is Seeded,
            r.state() == Some(seeded_state(seed)),
    {
        DiceSource::Seeded(seed_generator(seed))
    }

    /// Rolls one die of `sides` sides. The number lies between 1 and
    /// `sides`. A seeded source gives the number that its state fixes, and
    /// moves on to the state that follows; the thread's source gives any
    /// such number and stays the thread's.
    pub fn draw(&mut self, sides: i64) -> (r: i64)
        requires
            sides >= 1,
        ensures
            1 <= r <= sides,
            match old(self).state() {
                Some(state) => r == drawn(state, sides) && final(self).state() == Some(
                    state_after(state, sides),
                ),
                None => final(self).state().is_none(),
            },
    {
        match self {
            DiceSource::Thread => sample_thread(1, sides),
            DiceSource::Seeded(generator) => sample_seeded(generator, 1, sides),
        }
    }
}

} // verus!
