//! Z-order (Morton) locality keys: the bits of two 16-bit grid coordinates
//! are interleaved into one 32-bit key, so that points close in the plane
//! tend to get numerically close keys.
use vstd::prelude::*;

verus! {

/// The interleaving, built two bits at a time from the low end: bit `i` of
/// `x` lands at position `2*i` of the key, bit `i` of `y` at `2*i + 1`.
pub open spec fn morton_rec(x: u32, y: u32, k: nat) -> u32
    decreases k,
{
    if k == 0 {
        0u32
    } else {
        (x & 1) | (((y & 1) << 1u32) | (morton_rec(x >> 1u32, y >> 1u32, (k - 1) as nat)
            << 2u32))
    }
}

/// The 32-bit Z-order key of a pair of 16-bit grid coordinates.
pub open spec fn z_key(x: u32, y: u32) -> u32 {
    morton_rec(x, y, 16)
}

/// Bit `i` of `x` stands at key position `2*i`, bit `i` of `y` at `2*i + 1`.
pub proof fn lemma_z_key_bits(x: u32, y: u32, i: u32)
    by (bit_vector)
    requires
        x < 0x10000,
        y < 0x10000,
        i < 16,
    ensures
        (z_key(x, y) >> (2 * i)) & 1 == (x >> i) & 1,
        (z_key(x, y) >> (2 * i + 1)) & 1 == (y >> i) & 1,
{
}

pub struct ZOrder;

impl ZOrder {
    /// Spreads the low 16 bits of `n` to the even bit positions.
    fn interleave(n: u32) -> (r: u32)
        requires
            n < 0x10000,
        ensures
            r == morton_rec(n, 0, 16),
    {
        let a = (n | (n << 8u32)) & 0x00FF00FF;
        let b = (a | (a << 4u32)) & 0x0F0F0F0F;
        let c = (b | (b << 2u32)) & 0x33333333;
        let r = (c | (c << 1u32)) & 0x55555555;
        proof {
            assert(r == morton_rec(n, 0, 16)) by (bit_vector)
                requires
                    n < 0x10000,
                    a == (n | (n << 8u32)) & 0x00FF00FF,
                    b == (a | (a << 4u32)) & 0x0F0F0F0F,
                    c == (b | (b << 2u32)) & 0x33333333,
                    r == (c | (c << 1u32)) & 0x55555555,
            ;
        }
        r
    }

    /// Encodes a grid coordinate pair as its Z-order key.
    pub fn encode(x: u32, y: u32) -> (r: u32)
        requires
            x < 0x10000,
            y < 0x10000,
        ensures
            r == z_key(x, y),
    {
        let ix = Self::interleave(x);
        let iy = Self::interleave(y);
        let r = ix | (iy << 1u32);
        proof {
            assert(r == morton_rec(x, y, 16)) by (bit_vector)
                requires
                    x < 0x10000,
                    y < 0x10000,
                    ix == morton_rec(x, 0, 16),
                    iy == morton_rec(y, 0, 16),
                    r == ix | (iy << 1u32),
            ;
        }
        r
    }
}

} // verus!
