//! Small utilities: the deterministic pseudo-random source that schedulers,
//! generators and mutators draw from.

use vstd::prelude::*;

verus! {

/// One xorshift round.  The whole generator is specified exactly, so every
/// component built on it (schedulers, mutators) has a deterministic contract.
pub open spec fn xorshift_step(x: u64) -> u64 {
    let a = x ^ (x << 13);
    let b = a ^ (a >> 7);
    b ^ (b << 17)
}

/// The xorshift state after `n` rounds from `seed`.
pub open spec fn xorshift_iter(seed: u64, n: nat) -> u64
    decreases n,
{
    if n == 0 {
        seed
    } else {
        xorshift_step(xorshift_iter(seed, (n - 1) as nat))
    }
}

/// Seed used when a zero seed is requested; xorshift is stuck at zero.
pub const RAND_DEFAULT_SEED: u64 = 0x9e3779b97f4a7c15;

/// A xorshift64 pseudo-random number generator.
#[derive(Clone, Copy, Debug)]
pub struct StdRand {
    seed: u64,
}

impl StdRand {
    /// The current internal state.
    pub closed spec fn spec_seed(&self) -> u64 {
        self.seed
    }

    /// Creates a generator from a seed; a zero seed is replaced with a fixed
    /// non-zero constant, since xorshift never leaves zero.
    pub fn new(seed: u64) -> (r: Self)
        ensures
            r.spec_seed() == if seed == 0 { RAND_DEFAULT_SEED } else { seed },
    {
        StdRand { seed: if seed == 0 { RAND_DEFAULT_SEED } else { seed } }
    }

    /// Draws the next raw 64-bit value.
    pub fn next(&mut self) -> (r: u64)
        ensures
            final(self).spec_seed() == xorshift_step(old(self).spec_seed()),
            r == final(self).spec_seed(),
    {
        let mut x = self.seed;
        x = x ^ (x << 13u64);
        x = x ^ (x >> 7u64);
        x = x ^ (x << 17u64);
        self.seed = x;
        x
    }

    /// Draws a value below `bound`.
    pub fn below(&mut self, bound: u64) -> (r: u64)
        requires
            bound > 0,
        ensures
            final(self).spec_seed() == xorshift_step(old(self).spec_seed()),
            r == xorshift_step(old(self).spec_seed()) % bound,
            r < bound,
    {
        let x = self.next();
        x % bound
    }
}

} // verus!
