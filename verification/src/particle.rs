//! The per-particle record: position, size, velocity, collision bookkeeping
//! and a cosmetic temperature, all in fixed point.
use vstd::prelude::*;
use crate::fixed::{SCALE, LIM};

verus! {

/// Smallest admissible radius (sub-units); keeps every mass positive.
pub const RADIUS_MIN: i64 = 100;

/// Largest admissible radius (sub-units).
pub const SIZE_LIM: i64 = 1_000_000;

/// Pi in fixed point.
pub const PI_FP: i64 = 3142;

/// Largest mass a particle can have: `mass_of(SIZE_LIM)`.
pub const MASS_LIM: i64 = 3_142_000_000;

/// The mass of a uniform-density disk: pi * r^2, in fixed point.
pub open spec fn mass_of(r: int) -> int {
    ((PI_FP as int) * r * r) / ((SCALE as int) * (SCALE as int))
}

#[derive(Clone, Copy, Debug, PartialEq, Eq, Structural)]
pub struct Particle {
    pub x: i64,
    pub y: i64,
    pub radius: i64,
    pub mass: i64,
    pub vx: i64,
    pub vy: i64,
    pub colliding: bool,
    pub z_code: u32,
    pub impulse_x: i64,
    pub impulse_y: i64,
    pub color_temp: i64,
}

/// Well-formedness: the radius is in range, the mass derives from the radius,
/// every physical quantity sits in the representable band, and the
/// temperature is a unit value.
pub open spec fn wf_particle(p: Particle) -> bool {
    &&& RADIUS_MIN <= p.radius <= SIZE_LIM
    &&& p.mass == mass_of(p.radius as int)
    &&& -LIM <= p.x <= LIM
    &&& -LIM <= p.y <= LIM
    &&& -LIM <= p.vx <= LIM
    &&& -LIM <= p.vy <= LIM
    &&& -LIM <= p.impulse_x <= LIM
    &&& -LIM <= p.impulse_y <= LIM
    &&& 0 <= p.color_temp <= SCALE
}

pub proof fn lemma_mass_bounds(r: int)
    requires
        RADIUS_MIN <= r <= SIZE_LIM,
    ensures
        31 <= mass_of(r) <= MASS_LIM,
{
    let num = (PI_FP as int) * r * r;
    assert(31_420_000 <= num <= 3_142_000_000_000_000) by (nonlinear_arith)
        requires
            100 <= r <= 1_000_000,
            num == 3142 * r * r,
    ;
    vstd::arithmetic::div_mod::lemma_div_is_ordered(31_420_000, num, 1_000_000);
    vstd::arithmetic::div_mod::lemma_div_is_ordered(num, 3_142_000_000_000_000, 1_000_000);
    assert(31_420_000int / 1_000_000int == 31) by (nonlinear_arith);
    assert(3_142_000_000_000_000int / 1_000_000int == 3_142_000_000) by (nonlinear_arith);
}

/// Computes the disk mass from the radius.
pub fn compute_mass(radius: i64) -> (m: i64)
    requires
        RADIUS_MIN <= radius <= SIZE_LIM,
    ensures
        m as int == mass_of(radius as int),
        31 <= m <= MASS_LIM,
{
    proof {
        crate::fixed::lemma_mul_bound(PI_FP as int, radius as int, PI_FP as int, SIZE_LIM as int);
        crate::fixed::lemma_mul_bound(
            (PI_FP as int) * (radius as int),
            radius as int,
            (PI_FP as int) * (SIZE_LIM as int),
            SIZE_LIM as int,
        );
        lemma_mass_bounds(radius as int);
    }
    let num: i128 = (PI_FP as i128) * (radius as i128) * (radius as i128);
    let q: i128 = crate::fixed::div_trunc(num, (SCALE as i128) * (SCALE as i128));
    q as i64
}

impl Particle {
    /// A fresh particle: mass derived from the radius, not yet colliding,
    /// zero impulse, locality key not yet assigned.
    pub fn new(x: i64, y: i64, radius: i64, vx: i64, vy: i64, color_temp: i64) -> (p: Particle)
        requires
            -LIM <= x <= LIM,
            -LIM <= y <= LIM,
            RADIUS_MIN <= radius <= SIZE_LIM,
            -LIM <= vx <= LIM,
            -LIM <= vy <= LIM,
            0 <= color_temp <= SCALE,
        ensures
            p == (Particle {
                x,
                y,
                radius,
                mass: mass_of(radius as int) as i64,
                vx,
                vy,
                colliding: false,
                z_code: 0u32,
                impulse_x: 0i64,
                impulse_y: 0i64,
                color_temp,
            }),
            wf_particle(p),
    {
        let mass = compute_mass(radius);
        Particle {
            x,
            y,
            radius,
            mass,
            vx,
            vy,
            colliding: false,
            z_code: 0,
            impulse_x: 0,
            impulse_y: 0,
            color_temp,
        }
    }
}

} // verus!
