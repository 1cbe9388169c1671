//! The injectable random source that drives seed selection and neighbor
//! choice during a carve.

use vstd::prelude::*;

verus! {

/// One advance of the 64-bit xorshift generator.
pub open spec fn xorshift_step(s: u64) -> u64 {
    let a = s ^ (s << 13u64);
    let b = a ^ (a >> 7u64);
    b ^ (b << 17u64)
}

/// A random source for the carve algorithm.
///
/// `Seeded` walks the xorshift sequence from a 64-bit seed, so a fixed seed
/// reproduces a run exactly. `PreferFirst` always picks the first offered
/// alternative (the first unvisited direction in up, down, left, right
/// order), which makes a layout derivable by hand.
#[derive(Clone, Copy, Debug, PartialEq, Eq, Structural)]
pub enum CarveRng {
    Seeded(u64),
    PreferFirst,
}

/// The source's state after one draw.
pub open spec fn rng_step(r: CarveRng) -> CarveRng {
    match r {
        CarveRng::Seeded(s) => CarveRng::Seeded(xorshift_step(s)),
        CarveRng::PreferFirst => CarveRng::PreferFirst,
    }
}

/// The value one draw with exclusive upper bound `bound` yields.
pub open spec fn rng_value(r: CarveRng, bound: u32) -> u32 {
    match r {
        CarveRng::Seeded(s) => (xorshift_step(s) % (bound as u64)) as u32,
        CarveRng::PreferFirst => 0u32,
    }
}

/// A draw stays below its bound.
pub proof fn lemma_rng_value_bound(r: CarveRng, bound: u32)
    requires
        bound >= 1,
    ensures
        rng_value(r, bound) < bound,
{
}

impl CarveRng {
    /// Draws a value below `bound` and advances the source.
    pub fn next_below(&mut self, bound: u32) -> (r: u32)
        requires
            bound >= 1,
        ensures
            *final(self) == rng_step(*old(self)),
            r == rng_value(*old(self), bound),
            r < bound,
    {
        match *self {
            CarveRng::Seeded(s) => {
                let a = s ^ (s << 13u64);
                let b = a ^ (a >> 7u64);
                let ns = b ^ (b << 17u64);
                *self = CarveRng::Seeded(ns);
                (ns % (bound as u64)) as u32
            },
            CarveRng::PreferFirst => 0u32,
        }
    }

    /// A source seeded from ambient entropy, as click-driven regeneration
    /// uses; every layout it can lead to is one some `Seeded` source reaches.
    pub fn from_entropy() -> (r: CarveRng)
        ensures
            r is Seeded,
    {
        CarveRng::Seeded(entropy_seed())
    }
}

/// Relies on rand::random: one fresh value drawn from the thread-local
/// generator. Nothing can be promised of its value.
#[verifier::external_body]
fn entropy_seed() -> (r: u64) {
    rand::random::<u64>()
}

} // verus!
