//! A small seedable pseudo-random source for the stochastic update rule.
//!
//! A linear congruential generator over `u64`, with Knuth's MMIX
//! multiplier and increment. Every draw is an exact function of the seed,
//! so a run with a fixed seed is reproducible.

use vstd::prelude::*;

verus! {

/// Multiplier of the linear congruential step.
pub const LCG_MULTIPLIER: u64 = 6364136223846793005;

/// Increment of the linear congruential step.
pub const LCG_INCREMENT: u64 = 1442695040888963407;

/// The generator state that follows `s`: `s * m + c` reduced modulo 2^64.
pub open spec fn lcg_next_spec(s: u64) -> u64 {
    ((s * LCG_MULTIPLIER + LCG_INCREMENT) % (u64::MAX as int + 1)) as u64
}

/// The generator state `n` steps after `s`.
pub open spec fn lcg_iter_spec(s: u64, n: nat) -> u64
    decreases n,
{
    if n == 0 {
        s
    } else {
        lcg_next_spec(lcg_iter_spec(s, (n - 1) as nat))
    }
}

/// Stepping `a + b` times is stepping `a` times, then `b` times.
pub proof fn lemma_lcg_iter_add(s: u64, a: nat, b: nat)
    ensures
        lcg_iter_spec(s, a + b) == lcg_iter_spec(lcg_iter_spec(s, a), b),
    decreases b,
{
    if b > 0 {
        lemma_lcg_iter_add(s, a, (b - 1) as nat);
    }
}

/// A seedable pseudo-random number generator.
pub struct SeededRng {
    /// The current generator state.
    pub state: u64,
}

impl SeededRng {
    /// Start a generator from a seed.
    pub fn new(seed: u64) -> (r: SeededRng)
        ensures
            r.state == seed,
    {
        SeededRng { state: seed }
    }

    /// Advance the generator one step and return the new state.
    pub fn next_u64(&mut self) -> (r: u64)
        ensures
            final (self).state == lcg_next_spec(old(self).state),
            r == final (self).state,
    {
        let next = self.state.wrapping_mul(LCG_MULTIPLIER).wrapping_add(LCG_INCREMENT);
        proof {
            assert(next == lcg_next_spec(self.state));
        }
        self.state = next;
        next
    }

    /// Draw an index below `bound`, advancing the generator one step.
    pub fn next_below(&mut self, bound: usize) -> (r: usize)
        requires
            bound >= 1,
        ensures
            final (self).state == lcg_next_spec(old(self).state),
            r == lcg_next_spec(old(self).state) as int % bound as int,
            r < bound,
    {
        let x = self.next_u64();
        (x % (bound as u64)) as usize
    }
}

} // verus!
