use vstd::prelude::*;

verus! {

/// Multiplier of Knuth's 64-bit linear congruential generator.
pub const LCG_MUL: u64 = 6364136223846793005;

/// Increment of Knuth's 64-bit linear congruential generator.
pub const LCG_INC: u64 = 1442695040888963407;

/// Deterministic pseudo-random source: a 64-bit linear congruential
/// generator whose upper 31 bits form each draw. It is the uniform
/// source the weighted sampler consumes, one draw per roll.
pub struct Rng {
    pub state: u64,
}

/// State following `s` in the congruential sequence.
pub open spec fn lcg_next(s: u64) -> u64 {
    vstd::wrapping::u64_specs::wrapping_add(
        vstd::wrapping::u64_specs::wrapping_mul(s, LCG_MUL),
        LCG_INC,
    )
}

/// Value drawn when the generator leaves state `s`: the upper 31 bits
/// of the successor state.
pub open spec fn lcg_output(s: u64) -> u64 {
    lcg_next(s) >> 33
}

impl Rng {
    /// A generator starting from the given seed.
    pub fn new(seed: u64) -> (r: Rng)
        ensures
            r.state == seed,
    {
        Rng { state: seed }
    }

    /// Advance one step and return the draw for the old state.
    pub fn next(&mut self) -> (r: u64)
        ensures
            final(self).state == lcg_next(old(self).state),
            r == lcg_output(old(self).state),
            r < 0x8000_0000,
    {
        self.state = self.state.wrapping_mul(LCG_MUL).wrapping_add(LCG_INC);
        let r = self.state >> 33;
        proof {
            let s = self.state;
            assert(s >> 33 < 0x8000_0000u64) by (bit_vector);
        }
        r
    }

    /// Advance one step and return a draw reduced below `bound`.
    pub fn next_below(&mut self, bound: u64) -> (r: u64)
        requires
            bound >= 1,
        ensures
            final(self).state == lcg_next(old(self).state),
            r == lcg_output(old(self).state) % bound,
            r < bound,
    {
        let x = self.next();
        x % bound
    }
}

} // verus!
