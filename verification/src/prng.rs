//! A small verified xorshift generator: the uniform random source that
//! seeds and reseeds the grid. It is deterministic given its seed, and its
//! step is specified exactly.

use vstd::prelude::*;

verus! {

/// The fallback seed, used when a caller hands in zero (the one state the
/// xorshift step cannot leave).
pub open spec fn default_seed() -> u64 {
    0x9E3779B97F4A7C15u64
}

/// One xorshift step on a 64-bit state.
pub open spec fn next_of(x: u64) -> u64 {
    let a = x ^ (x << 13);
    let b = a ^ (a >> 7);
    b ^ (b << 17)
}

/// A 64-bit xorshift pseudo-random generator.
pub struct Prng {
    state: u64,
}

impl Prng {
    /// The current state of the generator.
    pub closed spec fn state_spec(self) -> u64 {
        self.state
    }

    /// Creates a generator from a seed, replacing a zero seed by the
    /// fallback.
    pub fn seeded(seed: u64) -> (r: Prng)
        ensures
            r.state_spec() == if seed == 0 {
                default_seed()
            } else {
                seed
            },
    {
        if seed == 0 {
            Prng { state: 0x9E3779B97F4A7C15u64 }
        } else {
            Prng { state: seed }
        }
    }

    /// Advances the state by one xorshift step and returns its top bit.
    pub fn next_bool(&mut self) -> (r: bool)
        ensures
            final(self).state_spec() == next_of(old(self).state_spec()),
            r == (next_of(old(self).state_spec()) >> 63 == 1),
    {
        let x0 = self.state;
        let x1 = x0 ^ (x0 << 13);
        let x2 = x1 ^ (x1 >> 7);
        let x3 = x2 ^ (x2 << 17);
        self.state = x3;
        x3 >> 63 == 1
    }
}

} // verus!
