//! The injected random source: a 64-bit linear-congruential generator with an
//! explicit seed, drawn from for initial particle state. Keeping the
//! generator inside the field makes every trajectory a pure function of the
//! construction arguments.
use vstd::prelude::*;
use crate::fixed::SCALE;

verus! {

pub const STATE_MUL: u64 = 6364136223846793005;
pub const STATE_INC: u64 = 1442695040888963407;

/// The successor state of the generator (multiply-and-add modulo 2^64).
pub open spec fn next_state(s: u64) -> u64 {
    (((s * STATE_MUL) + STATE_INC) % 0x1_0000_0000_0000_0000) as u64
}

/// The unit draw a state yields: a fixed-point value in `[0, SCALE)`,
/// standing for a uniform draw from `[0, 1)`.
pub open spec fn unit_of(s: u64) -> i64 {
    (((s >> 33u64) % (SCALE as u64)) as i64)
}

/// The seeded generator.
pub struct Rng {
    pub state: u64,
}

impl Rng {
    pub fn new(seed: u64) -> (r: Rng)
        ensures
            r.state == seed,
    {
        Rng { state: seed }
    }

    /// Advances the state and returns the draw, a fixed-point unit value.
    pub fn next_unit(&mut self) -> (r: i64)
        ensures
            final(self).state == next_state(old(self).state),
            r == unit_of(final(self).state),
            0 <= r < SCALE,
    {
        proof {
            crate::fixed::lemma_mul_bound(
                self.state as int,
                STATE_MUL as int,
                u64::MAX as int,
                STATE_MUL as int,
            );
        }
        let wide: u128 = (self.state as u128) * (STATE_MUL as u128) + (STATE_INC as u128);
        let next: u64 = (wide % 0x1_0000_0000_0000_0000u128) as u64;
        self.state = next;
        ((next >> 33u64) % (SCALE as u64)) as i64
    }
}

} // verus!
