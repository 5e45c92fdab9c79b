//! The particle field: configuration, population, and the simulation step.
//!
//! Each step integrates every particle independently (gravity, fan force,
//! cooling, Euler position update, wall bounce, locality key), sorts the
//! population by Z-order key, sweeps sorted pairs under a key-gap pruning
//! threshold resolving overlaps with mass-weighted impulses, and finally
//! applies the accumulated impulses. Every phase is pinned to a spec
//! function, so a whole step is a mathematical function of the prior state:
//! trajectories are deterministic by construction.
use vstd::prelude::*;
use crate::fixed::{SCALE, LIM, sat, tdiv, fmul, spec_isqrt};
use crate::particle::{Particle, wf_particle, mass_of, RADIUS_MIN, SIZE_LIM};
use crate::rng::Rng;
use crate::zorder::{ZOrder, z_key};

verus! {

/// Largest admissible world dimension (sub-units).
pub const POS_LIM: i64 = 1_000_000_000;

/// Largest admissible restitution coefficient (fixed point; 1000 is elastic).
pub const ELAST_LIM: i64 = 100_000;

/// Temperature decay per step (fixed point; 10 is 0.01).
pub const COOLING: i64 = 10;

/// The scalar configuration of a field. Mutable between steps via setters;
/// read-only during a step.
#[derive(Clone, Copy, Debug, PartialEq, Eq, Structural)]
pub struct Params {
    pub width: i64,
    pub height: i64,
    pub particle_count: usize,
    pub min_size: i64,
    pub max_size: i64,
    pub max_speed: i64,
    pub gravity: i64,
    pub elasticity: i64,
    pub fan_speed: i64,
    pub search_range: i32,
}

/// Machine bounds on the configuration: everything the arithmetic of a step
/// needs to stay within the representable band.
pub open spec fn wf_params(c: Params) -> bool {
    &&& 1 <= c.width <= POS_LIM
    &&& 1 <= c.height <= POS_LIM
    &&& RADIUS_MIN <= c.min_size <= SIZE_LIM
    &&& RADIUS_MIN <= c.max_size <= SIZE_LIM
    &&& -LIM <= c.max_speed <= LIM
    &&& -LIM <= c.gravity <= LIM
    &&& 0 <= c.elasticity <= ELAST_LIM
    &&& -LIM <= c.fan_speed <= LIM
}

/// The particle field.
pub struct Simulation {
    params: Params,
    particles: Vec<Particle>,
    rng: Rng,
}

/// Linear cooling toward zero.
pub open spec fn spec_cool(ct: int) -> int {
    if ct > 0 {
        if ct >= COOLING {
            ct - COOLING
        } else {
            0
        }
    } else {
        ct
    }
}

/// Wall clamp: keep the disk inside `[0, w]` along one axis (`x.max(r).min(w-r)`).
pub open spec fn spec_clamp_wall(x: int, r: int, w: int) -> int {
    let lo = if x > r {
        x
    } else {
        r
    };
    if lo < w - r {
        lo
    } else {
        w - r
    }
}

/// Grid quantization of one axis into 16 bits.
pub open spec fn spec_grid(x: int, w: int) -> u32 {
    let q = tdiv(x * 0xFFFF, w);
    if q < 0 {
        0u32
    } else if q > 0xFFFF {
        0xFFFFu32
    } else {
        q as u32
    }
}

/// The fan: an upward force in a central column of the lower half of the
/// world, scaling with depth below the vertical midpoint and falling off
/// linearly with horizontal distance from the column's center.
pub open spec fn spec_fan(c: Params, x: int, y: int, vy: int) -> int {
    let avg = tdiv(c.min_size + c.max_size, 2);
    let halfw = avg * 2;
    let center = tdiv(c.width as int, 2);
    let top = tdiv(c.height as int, 2);
    let dxa = if x - center < 0 {
        center - x
    } else {
        x - center
    };
    if dxa < halfw && y > top {
        let dfb = tdiv((y - top) * SCALE, c.height - top);
        let base = tdiv(1500 * dfb, SCALE as int);
        let hf = SCALE - tdiv(dxa * SCALE, halfw);
        sat(vy - tdiv(base * hf * c.fan_speed, (SCALE as int) * (SCALE as int)))
    } else {
        vy
    }
}

/// One particle's integration: gravity, fan, cooling, Euler position update,
/// independent wall bounce per axis, and the fresh locality key.
pub open spec fn spec_integrate(c: Params, p: Particle) -> Particle {
    let vy_g = sat(p.vy + c.gravity);
    let vy_f = if c.fan_speed > 0 {
        spec_fan(c, p.x as int, p.y as int, vy_g)
    } else {
        vy_g
    };
    let ct = spec_cool(p.color_temp as int);
    let x1 = sat(p.x + p.vx);
    let y1 = sat(p.y + vy_f);
    let hit_x = x1 - p.radius < 0 || x1 + p.radius > c.width;
    let x2 = if hit_x {
        spec_clamp_wall(x1, p.radius as int, c.width as int)
    } else {
        x1
    };
    let vx2 = if hit_x {
        fmul(p.vx as int, -(c.elasticity as int))
    } else {
        p.vx as int
    };
    let hit_y = y1 - p.radius < 0 || y1 + p.radius > c.height;
    let y2 = if hit_y {
        spec_clamp_wall(y1, p.radius as int, c.height as int)
    } else {
        y1
    };
    let vy2 = if hit_y {
        fmul(vy_f, -(c.elasticity as int))
    } else {
        vy_f
    };
    let gx = spec_grid(x2, c.width as int);
    let gy = spec_grid(y2, c.height as int);
    Particle {
        x: x2 as i64,
        y: y2 as i64,
        vx: vx2 as i64,
        vy: vy2 as i64,
        color_temp: ct as i64,
        z_code: z_key(gx, gy),
        ..p
    }
}

/// Narrow-phase resolution of one ordered pair. If the disks overlap, both
/// are flagged and re-heated; unless the centers coincide (degenerate: no
/// impulse at all) or the pair is already separating along the contact
/// normal (`dvn > 0`: no impulse, no correction), mass-weighted impulses are
/// accumulated with opposite signs and the centers are pushed apart along
/// the normal, the heavier particle moving less.
pub open spec fn spec_collide_pair(p1: Particle, p2: Particle, e: int) -> (Particle, Particle) {
    let dx = p1.x - p2.x;
    let dy = p1.y - p2.y;
    let dist_sq = dx * dx + dy * dy;
    let rsum = p1.radius + p2.radius;
    if dist_sq < rsum * rsum {
        let q1 = Particle { colliding: true, color_temp: SCALE, ..p1 };
        let q2 = Particle { colliding: true, color_temp: SCALE, ..p2 };
        let dist = spec_isqrt(dist_sq);
        if dist == 0 {
            (q1, q2)
        } else {
            let nx = tdiv(dx * SCALE, dist);
            let ny = tdiv(dy * SCALE, dist);
            let dvx = p1.vx - p2.vx;
            let dvy = p1.vy - p2.vy;
            let dvn = tdiv(dvx * nx + dvy * ny, SCALE as int);
            if dvn <= 0 {
                let msum = p1.mass + p2.mass;
                let dv1n = tdiv((-(SCALE + e)) * dvn * p2.mass, SCALE * msum);
                let dv2n = tdiv((SCALE + e) * dvn * p1.mass, SCALE * msum);
                let r1 = Particle {
                    impulse_x: sat(q1.impulse_x + tdiv(dv1n * nx, SCALE as int)) as i64,
                    impulse_y: sat(q1.impulse_y + tdiv(dv1n * ny, SCALE as int)) as i64,
                    ..q1
                };
                let r2 = Particle {
                    impulse_x: sat(q2.impulse_x + tdiv(dv2n * nx, SCALE as int)) as i64,
                    impulse_y: sat(q2.impulse_y + tdiv(dv2n * ny, SCALE as int)) as i64,
                    ..q2
                };
                let overlap = rsum - dist;
                if overlap > 0 {
                    let sep = overlap + 100;
                    let f1 = tdiv(p2.mass * SCALE, msum);
                    let f2 = tdiv(p1.mass * SCALE, msum);
                    let s1 = Particle {
                        x: sat(r1.x + tdiv(nx * sep * f1, (SCALE as int) * (SCALE as int))) as i64,
                        y: sat(r1.y + tdiv(ny * sep * f1, (SCALE as int) * (SCALE as int))) as i64,
                        ..r1
                    };
                    let s2 = Particle {
                        x: sat(r2.x - tdiv(nx * sep * f2, (SCALE as int) * (SCALE as int))) as i64,
                        y: sat(r2.y - tdiv(ny * sep * f2, (SCALE as int) * (SCALE as int))) as i64,
                        ..r2
                    };
                    (s1, s2)
                } else {
                    (r1, r2)
                }
            } else {
                (q1, q2)
            }
        }
    } else {
        (p1, p2)
    }
}

/// Resolves one pair, mirroring `spec_collide_pair` exactly.
pub fn collide_pair(p1: &Particle, p2: &Particle, e: i64) -> (r: (Particle, Particle))
    requires
        wf_particle(*p1),
        wf_particle(*p2),
        0 <= e <= ELAST_LIM,
    ensures
        r == spec_collide_pair(*p1, *p2, e as int),
        wf_particle(r.0),
        wf_particle(r.1),
{
    proof {
        crate::particle::lemma_mass_bounds(p1.radius as int);
        crate::particle::lemma_mass_bounds(p2.radius as int);
        crate::fixed::lemma_mul_bound(
            p1.x - p2.x,
            p1.x - p2.x,
            2 * (LIM as int),
            2 * (LIM as int),
        );
        crate::fixed::lemma_mul_bound(
            p1.y - p2.y,
            p1.y - p2.y,
            2 * (LIM as int),
            2 * (LIM as int),
        );
        assert((p1.x - p2.x) * (p1.x - p2.x) >= 0) by (nonlinear_arith);
        assert((p1.y - p2.y) * (p1.y - p2.y) >= 0) by (nonlinear_arith);
        crate::fixed::lemma_mul_bound(
            p1.radius + p2.radius,
            p1.radius + p2.radius,
            2 * (SIZE_LIM as int),
            2 * (SIZE_LIM as int),
        );
        assert((1u128 << 55) == 0x80_0000_0000_0000u128) by (bit_vector);
    }
    let dx: i64 = p1.x - p2.x;
    let dy: i64 = p1.y - p2.y;
    let dsq: i128 = (dx as i128) * (dx as i128) + (dy as i128) * (dy as i128);
    let rsum: i64 = p1.radius + p2.radius;
    if dsq < (rsum as i128) * (rsum as i128) {
        let mut q1 = *p1;
        let mut q2 = *p2;
        q1.colliding = true;
        q1.color_temp = SCALE;
        q2.colliding = true;
        q2.color_temp = SCALE;
        proof {
            assert((1u128 << 110) == 0x4000_0000_0000_0000_0000_0000_0000u128) by (bit_vector);
        }
        let dist_u: u128 = crate::fixed::isqrt(dsq as u128);
        if dist_u == 0 {
            (q1, q2)
        } else {
            let dist: i128 = dist_u as i128;
            proof {
                assert(dist < rsum) by (nonlinear_arith)
                    requires
                        dist >= 0,
                        rsum > 0,
                        dist * dist <= dsq,
                        dsq < rsum * rsum,
                ;
                assert(-dist <= dx <= dist && -dist <= dy <= dist) by (nonlinear_arith)
                    requires
                        dist >= 0,
                        dx * dx <= dsq,
                        dy * dy <= dsq,
                        dsq < (dist + 1) * (dist + 1),
                ;
                crate::fixed::lemma_tdiv_shrink(dx as int * SCALE, dist as int, SCALE as int);
                crate::fixed::lemma_tdiv_shrink(dy as int * SCALE, dist as int, SCALE as int);
            }
            let nx: i128 = crate::fixed::div_trunc((dx as i128) * (SCALE as i128), dist);
            let ny: i128 = crate::fixed::div_trunc((dy as i128) * (SCALE as i128), dist);
            let dvx: i64 = p1.vx - p2.vx;
            let dvy: i64 = p1.vy - p2.vy;
            proof {
                crate::fixed::lemma_mul_bound(dvx as int, nx as int, 2 * (LIM as int), SCALE as int);
                crate::fixed::lemma_mul_bound(dvy as int, ny as int, 2 * (LIM as int), SCALE as int);
                crate::fixed::lemma_tdiv_shrink(
                    dvx * nx + dvy * ny,
                    SCALE as int,
                    4 * (LIM as int),
                );
            }
            let dvn: i128 = crate::fixed::div_trunc(
                (dvx as i128) * nx + (dvy as i128) * ny,
                SCALE as i128,
            );
            if dvn <= 0 {
                let msum: i64 = p1.mass + p2.mass;
                proof {
                    crate::fixed::lemma_mul_bound(
                        (-(SCALE + e)) as int,
                        dvn as int,
                        ELAST_LIM + SCALE,
                        4 * (LIM as int),
                    );
                    crate::fixed::lemma_mul_bound(
                        (-(SCALE + e)) * dvn,
                        p2.mass as int,
                        (ELAST_LIM + SCALE) * 4 * (LIM as int),
                        crate::particle::MASS_LIM as int,
                    );
                    crate::fixed::lemma_mul_bound(
                        (SCALE + e) as int,
                        dvn as int,
                        ELAST_LIM + SCALE,
                        4 * (LIM as int),
                    );
                    crate::fixed::lemma_mul_bound(
                        (SCALE + e) * dvn,
                        p1.mass as int,
                        (ELAST_LIM + SCALE) * 4 * (LIM as int),
                        crate::particle::MASS_LIM as int,
                    );
                }
                let dv1n: i128 = crate::fixed::div_trunc(
                    (-((SCALE + e) as i128)) * dvn * (p2.mass as i128),
                    (SCALE as i128) * (msum as i128),
                );
                let dv2n: i128 = crate::fixed::div_trunc(
                    ((SCALE + e) as i128) * dvn * (p1.mass as i128),
                    (SCALE as i128) * (msum as i128),
                );
                proof {
                    crate::fixed::lemma_tdiv_bound(
                        (-(SCALE + e)) * dvn * p2.mass,
                        SCALE as int * msum,
                        (ELAST_LIM + SCALE) * 4 * (LIM as int) * crate::particle::MASS_LIM,
                    );
                    crate::fixed::lemma_tdiv_bound(
                        (SCALE + e) * dvn * p1.mass,
                        SCALE as int * msum,
                        (ELAST_LIM + SCALE) * 4 * (LIM as int) * crate::particle::MASS_LIM,
                    );
                    crate::fixed::lemma_mul_bound(
                        dv1n as int,
                        nx as int,
                        (ELAST_LIM + SCALE) * 4 * (LIM as int) * crate::particle::MASS_LIM,
                        SCALE as int,
                    );
                    crate::fixed::lemma_mul_bound(
                        dv1n as int,
                        ny as int,
                        (ELAST_LIM + SCALE) * 4 * (LIM as int) * crate::particle::MASS_LIM,
                        SCALE as int,
                    );
                    crate::fixed::lemma_mul_bound(
                        dv2n as int,
                        nx as int,
                        (ELAST_LIM + SCALE) * 4 * (LIM as int) * crate::particle::MASS_LIM,
                        SCALE as int,
                    );
                    crate::fixed::lemma_mul_bound(
                        dv2n as int,
                        ny as int,
                        (ELAST_LIM + SCALE) * 4 * (LIM as int) * crate::particle::MASS_LIM,
                        SCALE as int,
                    );
                }
                q1.impulse_x = crate::fixed::clip(
                    (q1.impulse_x as i128) + crate::fixed::div_trunc(dv1n * nx, SCALE as i128),
                );
                q1.impulse_y = crate::fixed::clip(
                    (q1.impulse_y as i128) + crate::fixed::div_trunc(dv1n * ny, SCALE as i128),
                );
                q2.impulse_x = crate::fixed::clip(
                    (q2.impulse_x as i128) + crate::fixed::div_trunc(dv2n * nx, SCALE as i128),
                );
                q2.impulse_y = crate::fixed::clip(
                    (q2.impulse_y as i128) + crate::fixed::div_trunc(dv2n * ny, SCALE as i128),
                );
                let overlap: i64 = rsum - (dist as i64);
                if overlap > 0 {
                    let sep: i64 = overlap + 100;
                    proof {
                        crate::fixed::lemma_tdiv_shrink(
                            p2.mass as int * SCALE,
                            msum as int,
                            SCALE as int,
                        );
                        crate::fixed::lemma_tdiv_shrink(
                            p1.mass as int * SCALE,
                            msum as int,
                            SCALE as int,
                        );
                    }
                    let f1: i128 = crate::fixed::div_trunc(
                        (p2.mass as i128) * (SCALE as i128),
                        msum as i128,
                    );
                    let f2: i128 = crate::fixed::div_trunc(
                        (p1.mass as i128) * (SCALE as i128),
                        msum as i128,
                    );
                    proof {
                        crate::fixed::lemma_mul_bound(
                            nx as int,
                            sep as int,
                            SCALE as int,
                            3_000_000,
                        );
                        crate::fixed::lemma_mul_bound(
                            nx * sep,
                            f1 as int,
                            SCALE as int * 3_000_000,
                            SCALE as int,
                        );
                        crate::fixed::lemma_mul_bound(
                            nx * sep,
                            f2 as int,
                            SCALE as int * 3_000_000,
                            SCALE as int,
                        );
                        crate::fixed::lemma_mul_bound(
                            ny as int,
                            sep as int,
                            SCALE as int,
                            3_000_000,
                        );
                        crate::fixed::lemma_mul_bound(
                            ny * sep,
                            f1 as int,
                            SCALE as int * 3_000_000,
                            SCALE as int,
                        );
                        crate::fixed::lemma_mul_bound(
                            ny * sep,
                            f2 as int,
                            SCALE as int * 3_000_000,
                            SCALE as int,
                        );
                    }
                    q1.x = crate::fixed::clip(
                        (q1.x as i128) + crate::fixed::div_trunc(
                            nx * (sep as i128) * f1,
                            (SCALE as i128) * (SCALE as i128),
                        ),
                    );
                    q1.y = crate::fixed::clip(
                        (q1.y as i128) + crate::fixed::div_trunc(
                            ny * (sep as i128) * f1,
                            (SCALE as i128) * (SCALE as i128),
                        ),
                    );
                    q2.x = crate::fixed::clip(
                        (q2.x as i128) - crate::fixed::div_trunc(
                            nx * (sep as i128) * f2,
                            (SCALE as i128) * (SCALE as i128),
                        ),
                    );
                    q2.y = crate::fixed::clip(
                        (q2.y as i128) - crate::fixed::div_trunc(
                            ny * (sep as i128) * f2,
                            (SCALE as i128) * (SCALE as i128),
                        ),
                    );
                    (q1, q2)
                } else {
                    (q1, q2)
                }
            } else {
                (q1, q2)
            }
        }
    } else {
        (*p1, *p2)
    }
}

/// Stable insertion of one particle into a key-sorted sequence: it lands
/// after every element whose key is less than or equal to its own.
pub open spec fn sorted_insert(s: Seq<Particle>, p: Particle) -> Seq<Particle>
    decreases s.len(),
{
    if s.len() == 0 {
        seq![p]
    } else if p.z_code < s.last().z_code {
        sorted_insert(s.drop_last(), p).push(s.last())
    } else {
        s.push(p)
    }
}

/// Stable insertion sort by ascending locality key.
pub open spec fn spec_sort(s: Seq<Particle>) -> Seq<Particle>
    decreases s.len(),
{
    if s.len() == 0 {
        s
    } else {
        sorted_insert(spec_sort(s.drop_last()), s.last())
    }
}

/// `sorted_insert` lands exactly at the position scanned from the right.
proof fn lemma_sorted_insert_at(s: Seq<Particle>, p: Particle, j: int)
    requires
        0 <= j <= s.len(),
        forall|k: int| j <= k < s.len() ==> (#[trigger] s[k]).z_code > p.z_code,
        j > 0 ==> s[j - 1].z_code <= p.z_code,
    ensures
        sorted_insert(s, p) == s.insert(j, p),
    decreases s.len(),
{
    if j == s.len() {
        if s.len() == 0 {
            assert(sorted_insert(s, p) =~= s.insert(j, p));
        } else {
            assert(s[j - 1] == s.last());
            assert(sorted_insert(s, p) == s.push(p));
            assert(s.push(p) =~= s.insert(j, p));
        }
    } else {
        assert(s[s.len() - 1].z_code > p.z_code);
        lemma_sorted_insert_at(s.drop_last(), p, j);
        assert(sorted_insert(s, p) == s.drop_last().insert(j, p).push(s.last()));
        assert(s.drop_last().insert(j, p).push(s.last()) =~= s.insert(j, p));
    }
}

/// Inserting a well-formed particle into a well-formed sequence keeps every
/// element well-formed.
proof fn lemma_sorted_insert_wf(s: Seq<Particle>, p: Particle)
    requires
        forall|i: int| 0 <= i < s.len() ==> wf_particle(#[trigger] s[i]),
        wf_particle(p),
    ensures
        forall|i: int|
            0 <= i < sorted_insert(s, p).len() ==> wf_particle(#[trigger] sorted_insert(s, p)[i]),
        sorted_insert(s, p).len() == s.len() + 1,
    decreases s.len(),
{
    if s.len() == 0 {
    } else if p.z_code < s.last().z_code {
        lemma_sorted_insert_wf(s.drop_last(), p);
    } else {
    }
}

/// Sorting keeps every element well-formed and the length unchanged.
pub proof fn lemma_sort_wf(s: Seq<Particle>)
    requires
        forall|i: int| 0 <= i < s.len() ==> wf_particle(#[trigger] s[i]),
    ensures
        forall|i: int|
            0 <= i < spec_sort(s).len() ==> wf_particle(#[trigger] spec_sort(s)[i]),
        spec_sort(s).len() == s.len(),
    decreases s.len(),
{
    if s.len() > 0 {
        lemma_sort_wf(s.drop_last());
        lemma_sorted_insert_wf(spec_sort(s.drop_last()), s.last());
    }
}

/// Inserts one particle into an already built prefix, scanning from the right.
fn insert_sorted(v: &mut Vec<Particle>, p: Particle)
    ensures
        final(v)@ == sorted_insert(old(v)@, p),
{
    let mut j: usize = v.len();
    while j > 0 && v[j - 1].z_code > p.z_code
        invariant
            j <= v@.len(),
            forall|k: int| j <= k < v@.len() ==> (#[trigger] v@[k]).z_code > p.z_code,
            v@ == old(v)@,
        decreases j,
    {
        j = j - 1;
    }
    proof {
        lemma_sorted_insert_at(v@, p, j as int);
    }
    v.insert(j, p);
}

/// Full in-place re-sort of the population by ascending locality key.
fn sort_particles(v: &mut Vec<Particle>)
    ensures
        final(v)@ == spec_sort(old(v)@),
{
    let n = v.len();
    let mut out: Vec<Particle> = Vec::new();
    for idx in 0..n
        invariant
            out@ == spec_sort(v@.take(idx as int)),
            v@ == old(v)@,
            n == v@.len(),
    {
        let p = v[idx];
        insert_sorted(&mut out, p);
        proof {
            assert(v@.take(idx as int + 1).drop_last() =~= v@.take(idx as int));
            assert(v@.take(idx as int + 1).last() == v@[idx as int]);
        }
    }
    proof {
        assert(v@.take(n as int) =~= v@);
    }
    *v = out;
}

/// Every particle of a sequence is well-formed.
pub open spec fn wf_seq(s: Seq<Particle>) -> bool {
    forall|i: int| 0 <= i < s.len() ==> wf_particle(#[trigger] s[i])
}

/// Unsigned 32-bit wraparound difference between two keys.
pub open spec fn spec_gap(a: u32, b: u32) -> int {
    ((b as int) + 0x1_0000_0000 - (a as int)) % 0x1_0000_0000
}

/// Collision bookkeeping reset at the start of a pass.
pub open spec fn spec_clear_one(p: Particle) -> Particle {
    Particle { colliding: false, impulse_x: 0i64, impulse_y: 0i64, ..p }
}

pub open spec fn spec_clear(s: Seq<Particle>) -> Seq<Particle> {
    s.map_values(|p: Particle| spec_clear_one(p))
}

/// The accumulated impulse lands on the velocity at the end of a pass.
pub open spec fn spec_apply_one(p: Particle) -> Particle {
    Particle { vx: sat(p.vx + p.impulse_x) as i64, vy: sat(p.vy + p.impulse_y) as i64, ..p }
}

pub open spec fn spec_apply(s: Seq<Particle>) -> Seq<Particle> {
    s.map_values(|p: Particle| spec_apply_one(p))
}

/// The key-space pruning threshold: the squared search distance as a
/// fraction of the world area, scaled to key space, saturated to 32 bits.
/// The search distance itself is capped at 2^40 sub-units first; beyond
/// that cap the ratio already saturates the 32-bit key space, so the cap
/// never changes the result.
pub open spec fn spec_threshold(c: Params) -> u32 {
    let avg = tdiv(c.min_size + c.max_size, 2);
    let raw = (c.search_range as int) * avg * 2;
    let sd = if raw > 0x100_0000_0000 {
        0x100_0000_0000
    } else if raw < -0x100_0000_0000 {
        -0x100_0000_0000
    } else {
        raw
    };
    let q = tdiv(sd * sd * 0xFFFF_FFFF, (c.width as int) * (c.height as int));
    if q > 0xFFFF_FFFF {
        0xFFFF_FFFFu32
    } else {
        q as u32
    }
}

/// One pair of the sweep, applied to a sequence.
pub open spec fn spec_pair_upd(s: Seq<Particle>, i: int, j: int, e: int) -> Seq<Particle> {
    let r = spec_collide_pair(s[i], s[j], e);
    s.update(i, r.0).update(j, r.1)
}

/// The inner scan from partner `j` onward: stops at the first partner whose
/// key gap exceeds the threshold, else resolves the pair and moves on.
pub open spec fn spec_inner(s: Seq<Particle>, thr: u32, e: int, i: int, j: int) -> Seq<Particle>
    decreases s.len() - j,
{
    if j >= s.len() || i < 0 || i >= j {
        s
    } else if spec_gap(s[i].z_code, s[j].z_code) > thr {
        s
    } else {
        spec_inner(spec_pair_upd(s, i, j, e), thr, e, i, j + 1)
    }
}

pub proof fn lemma_inner_len(s: Seq<Particle>, thr: u32, e: int, i: int, j: int)
    ensures
        spec_inner(s, thr, e, i, j).len() == s.len(),
    decreases s.len() - j,
{
    if j >= s.len() || i < 0 || i >= j {
    } else if spec_gap(s[i].z_code, s[j].z_code) > thr {
    } else {
        lemma_inner_len(spec_pair_upd(s, i, j, e), thr, e, i, j + 1);
    }
}

/// The full sweep from anchor `i` onward.
pub open spec fn spec_sweep(s: Seq<Particle>, thr: u32, e: int, i: int) -> Seq<Particle>
    decreases s.len() - i,
    via spec_sweep_dec
{
    if i < 0 || i >= s.len() {
        s
    } else {
        spec_sweep(spec_inner(s, thr, e, i, i + 1), thr, e, i + 1)
    }
}

#[via_fn]
proof fn spec_sweep_dec(s: Seq<Particle>, thr: u32, e: int, i: int) {
    if 0 <= i < s.len() {
        lemma_inner_len(s, thr, e, i, i + 1);
    }
}

/// The whole collision pass on a population: sort, clear, sweep, apply.
pub open spec fn spec_collide_phase(c: Params, s: Seq<Particle>) -> Seq<Particle> {
    spec_apply(spec_sweep(spec_clear(spec_sort(s)), spec_threshold(c), c.elasticity as int, 0))
}

/// One whole step: integrate every particle, then the collision pass.
pub open spec fn spec_update_field(c: Params, s: Seq<Particle>) -> Seq<Particle> {
    spec_collide_phase(c, s.map_values(|p: Particle| spec_integrate(c, p)))
}

/// One freshly drawn particle, before its first integration: six draws, in
/// order radius, x, y, vx, vy, temperature. The radius interpolates between
/// the configured sizes, the velocity components are centered draws scaled
/// by the speed limit.
pub open spec fn spec_gen(c: Params, st0: u64) -> (Particle, u64) {
    let s1 = crate::rng::next_state(st0);
    let s2 = crate::rng::next_state(s1);
    let s3 = crate::rng::next_state(s2);
    let s4 = crate::rng::next_state(s3);
    let s5 = crate::rng::next_state(s4);
    let s6 = crate::rng::next_state(s5);
    let radius = c.min_size + tdiv(
        crate::rng::unit_of(s1) * (c.max_size - c.min_size),
        SCALE as int,
    );
    (
        Particle {
            x: tdiv(crate::rng::unit_of(s2) * c.width, SCALE as int) as i64,
            y: tdiv(crate::rng::unit_of(s3) * c.height, SCALE as int) as i64,
            radius: radius as i64,
            mass: mass_of(radius) as i64,
            vx: fmul(crate::rng::unit_of(s4) - 500, c.max_speed as int) as i64,
            vy: fmul(crate::rng::unit_of(s5) - 500, c.max_speed as int) as i64,
            colliding: false,
            z_code: 0u32,
            impulse_x: 0i64,
            impulse_y: 0i64,
            color_temp: crate::rng::unit_of(s6),
        },
        s6,
    )
}

/// A whole regenerated population of `k` particles, each integrated once so
/// its clamped position and locality key are valid, threading the generator
/// state through.
pub open spec fn spec_reset_rec(c: Params, st: u64, k: nat) -> (Seq<Particle>, u64)
    decreases k,
{
    if k == 0 {
        (Seq::<Particle>::empty(), st)
    } else {
        let prev = spec_reset_rec(c, st, (k - 1) as nat);
        let g = spec_gen(c, prev.1);
        (prev.0.push(spec_integrate(c, g.0)), g.1)
    }
}

/// One manually added particle: two draws (radius, temperature), zero
/// velocity, the given position.
pub open spec fn spec_add(c: Params, st0: u64, x: i64, y: i64) -> (Particle, u64) {
    let s1 = crate::rng::next_state(st0);
    let s2 = crate::rng::next_state(s1);
    let radius = c.min_size + tdiv(
        crate::rng::unit_of(s1) * (c.max_size - c.min_size),
        SCALE as int,
    );
    (
        Particle {
            x,
            y,
            radius: radius as i64,
            mass: mass_of(radius) as i64,
            vx: 0i64,
            vy: 0i64,
            colliding: false,
            z_code: 0u32,
            impulse_x: 0i64,
            impulse_y: 0i64,
            color_temp: crate::rng::unit_of(s2),
        },
        s2,
    )
}

/// A regenerated population has exactly the requested count.
pub proof fn lemma_reset_rec_len(c: Params, st: u64, k: nat)
    ensures
        spec_reset_rec(c, st, k).0.len() == k,
    decreases k,
{
    if k > 0 {
        lemma_reset_rec_len(c, st, (k - 1) as nat);
    }
}

/// Draws radius and position scaling helpers for one fresh particle.
fn gen_particle(c: Params, rng: &mut Rng) -> (p: Particle)
    requires
        wf_params(c),
    ensures
        p == spec_gen(c, old(rng).state).0,
        final(rng).state == spec_gen(c, old(rng).state).1,
        wf_particle(p),
{
    let u_r = rng.next_unit();
    let u_x = rng.next_unit();
    let u_y = rng.next_unit();
    let u_vx = rng.next_unit();
    let u_vy = rng.next_unit();
    let u_t = rng.next_unit();
    let span: i64 = c.max_size - c.min_size;
    proof {
        crate::fixed::lemma_unit_scale(u_r as int, span as int);
        crate::fixed::lemma_mul_bound(u_r as int, span as int, SCALE as int, SIZE_LIM as int);
        crate::fixed::lemma_unit_scale(u_x as int, c.width as int);
        crate::fixed::lemma_mul_bound(u_x as int, c.width as int, SCALE as int, POS_LIM as int);
        crate::fixed::lemma_unit_scale(u_y as int, c.height as int);
        crate::fixed::lemma_mul_bound(u_y as int, c.height as int, SCALE as int, POS_LIM as int);
    }
    let rq: i128 = crate::fixed::div_trunc((u_r as i128) * (span as i128), SCALE as i128);
    let radius: i64 = c.min_size + (rq as i64);
    let xq: i128 = crate::fixed::div_trunc((u_x as i128) * (c.width as i128), SCALE as i128);
    let yq: i128 = crate::fixed::div_trunc((u_y as i128) * (c.height as i128), SCALE as i128);
    let vx = crate::fixed::fp_mul(u_vx - 500, c.max_speed);
    let vy = crate::fixed::fp_mul(u_vy - 500, c.max_speed);
    Particle::new(xq as i64, yq as i64, radius, vx, vy, u_t)
}

/// Mass formula: every particle of a well-formed field carries the mass of
/// a uniform-density disk of its radius, pi*r^2 in fixed point.
pub proof fn lemma_mass_formula(s: Simulation, i: int)
    requires
        s.wf(),
        0 <= i < s.spec_particles().len(),
    ensures
        s.spec_particles()[i].mass == mass_of(s.spec_particles()[i].radius as int),
{
}

/// Wraparound key gap.
fn key_gap(a: u32, b: u32) -> (g: u32)
    ensures
        g as int == spec_gap(a, b),
{
    let w: u64 = (b as u64) + 0x1_0000_0000 - (a as u64);
    (w % 0x1_0000_0000) as u32
}

/// The pruning threshold for the current configuration.
fn compute_threshold(c: &Params) -> (t: u32)
    requires
        wf_params(*c),
    ensures
        t == spec_threshold(*c),
{
    let avg: i64 = (((c.min_size as u64) + (c.max_size as u64)) / 2) as i64;
    proof {
        vstd::arithmetic::div_mod::lemma_div_is_ordered(
            c.min_size + c.max_size,
            2 * (SIZE_LIM as int),
            2,
        );
        vstd::arithmetic::div_mod::lemma_div_pos_is_pos(c.min_size + c.max_size, 2);
        assert(2 * (SIZE_LIM as int) / 2 == SIZE_LIM as int) by (nonlinear_arith);
        crate::fixed::lemma_mul_bound(
            c.search_range as int,
            avg as int,
            0x8000_0000,
            SIZE_LIM as int,
        );
    }
    let raw: i128 = (c.search_range as i128) * (avg as i128) * 2;
    let sd: i128 = if raw > 0x100_0000_0000 {
        0x100_0000_0000
    } else if raw < -0x100_0000_0000 {
        -0x100_0000_0000
    } else {
        raw
    };
    proof {
        crate::fixed::lemma_mul_bound(sd as int, sd as int, 0x100_0000_0000, 0x100_0000_0000);
        crate::fixed::lemma_mul_bound(
            sd as int * sd as int,
            0xFFFF_FFFF,
            0x100_0000_0000int * 0x100_0000_0000int,
            0xFFFF_FFFF,
        );
        crate::fixed::lemma_mul_bound(c.width as int, c.height as int, POS_LIM as int, POS_LIM as int);
        assert(sd as int * sd as int >= 0) by (nonlinear_arith);
        assert((c.width as int) * (c.height as int) >= 1) by (nonlinear_arith)
            requires
                c.width >= 1,
                c.height >= 1,
        ;
        crate::fixed::lemma_tdiv_bound(
            sd as int * sd as int * 0xFFFF_FFFF,
            (c.width as int) * (c.height as int),
            0x100_0000_0000int * 0x100_0000_0000int * 0xFFFF_FFFFint,
        );
        assert(sd as int * sd as int * 0xFFFF_FFFF >= 0) by (nonlinear_arith)
            requires
                sd as int * sd as int >= 0,
        ;
    }
    let q: i128 = crate::fixed::div_trunc(
        sd * sd * 0xFFFF_FFFF,
        (c.width as i128) * (c.height as i128),
    );
    if q > 0xFFFF_FFFF {
        0xFFFF_FFFF
    } else {
        q as u32
    }
}

/// Clears the collision bookkeeping of every particle.
fn clear_flags(v: &mut Vec<Particle>)
    requires
        wf_seq(old(v)@),
    ensures
        final(v)@ == spec_clear(old(v)@),
        wf_seq(final(v)@),
{
    let ghost orig = v@;
    let n = v.len();
    for idx in 0..n
        invariant
            n == v@.len(),
            v@.len() == orig.len(),
            forall|k: int| 0 <= k < idx ==> v@[k] == spec_clear_one(#[trigger] orig[k]),
            forall|k: int| idx <= k < n ==> #[trigger] v@[k] == orig[k],
    {
        let mut p = v[idx];
        p.colliding = false;
        p.impulse_x = 0;
        p.impulse_y = 0;
        v.set(idx, p);
    }
    proof {
        assert(v@ =~= spec_clear(orig));
        assert forall|k: int| 0 <= k < v@.len() implies wf_particle(#[trigger] v@[k]) by {
            assert(v@[k] == spec_clear_one(orig[k]));
            assert(wf_particle(orig[k]));
        }
    }
}

/// Applies every particle's accumulated impulse to its velocity.
fn apply_impulses(v: &mut Vec<Particle>)
    requires
        wf_seq(old(v)@),
    ensures
        final(v)@ == spec_apply(old(v)@),
        wf_seq(final(v)@),
{
    let ghost orig = v@;
    let n = v.len();
    for idx in 0..n
        invariant
            n == v@.len(),
            v@.len() == orig.len(),
            forall|k: int| 0 <= k < idx ==> v@[k] == spec_apply_one(#[trigger] orig[k]),
            forall|k: int| idx <= k < n ==> #[trigger] v@[k] == orig[k],
    {
        let mut p = v[idx];
        p.vx = crate::fixed::fp_add(p.vx, p.impulse_x);
        p.vy = crate::fixed::fp_add(p.vy, p.impulse_y);
        v.set(idx, p);
    }
    proof {
        assert(v@ =~= spec_apply(orig));
        assert forall|k: int| 0 <= k < v@.len() implies wf_particle(#[trigger] v@[k]) by {
            assert(v@[k] == spec_apply_one(orig[k]));
            assert(wf_particle(orig[k]));
        }
    }
}

/// The pruned pairwise sweep over a key-sorted population.
fn sweep(v: &mut Vec<Particle>, thr: u32, e: i64)
    requires
        wf_seq(old(v)@),
        0 <= e <= ELAST_LIM,
    ensures
        final(v)@ == spec_sweep(old(v)@, thr, e as int, 0),
        wf_seq(final(v)@),
        final(v)@.len() == old(v)@.len(),
{
    let ghost orig = v@;
    let n = v.len();
    let mut i: usize = 0;
    while i < n
        invariant
            i <= n,
            n == v@.len(),
            wf_seq(v@),
            spec_sweep(v@, thr, e as int, i as int) == spec_sweep(orig, thr, e as int, 0),
        decreases n - i,
    {
        let ghost s0 = v@;
        let mut j: usize = i + 1;
        let mut stop: bool = false;
        while j < n && !stop
            invariant
                i < j <= n,
                i < n,
                n == v@.len(),
                wf_seq(v@),
                !stop ==> spec_inner(v@, thr, e as int, i as int, j as int) == spec_inner(
                    s0,
                    thr,
                    e as int,
                    i as int,
                    i as int + 1,
                ),
                stop ==> v@ == spec_inner(s0, thr, e as int, i as int, i as int + 1),
            decreases n - j + (if stop { 0int } else { 1int }),
        {
            let p1 = v[i];
            let p2 = v[j];
            let g = key_gap(p1.z_code, p2.z_code);
            if g > thr {
                proof {
                    assert(spec_inner(v@, thr, e as int, i as int, j as int) == v@);
                }
                stop = true;
            } else {
                let ghost prev = v@;
                let r = collide_pair(&p1, &p2, e);
                v.set(i, r.0);
                v.set(j, r.1);
                proof {
                    assert(v@ == spec_pair_upd(prev, i as int, j as int, e as int));
                    assert(spec_inner(prev, thr, e as int, i as int, j as int) == spec_inner(
                        v@,
                        thr,
                        e as int,
                        i as int,
                        j as int + 1,
                    ));
                }
                j = j + 1;
            }
        }
        proof {
            assert(v@ == spec_inner(s0, thr, e as int, i as int, i as int + 1));
            assert(spec_sweep(s0, thr, e as int, i as int) == spec_sweep(
                v@,
                thr,
                e as int,
                i as int + 1,
            ));
        }
        i = i + 1;
    }
}

/// Wall clamp along one axis.
fn clamp_wall(x: i64, r: i64, w: i64) -> (res: i64)
    requires
        -LIM <= x <= LIM,
        0 < r <= SIZE_LIM,
        1 <= w <= POS_LIM,
    ensures
        res as int == spec_clamp_wall(x as int, r as int, w as int),
        -LIM <= res <= LIM,
{
    let lo = if x > r {
        x
    } else {
        r
    };
    if lo < w - r {
        lo
    } else {
        w - r
    }
}

/// Grid quantization of one axis.
fn grid_coord(x: i64, w: i64) -> (g: u32)
    requires
        -LIM <= x <= LIM,
        1 <= w <= POS_LIM,
    ensures
        g == spec_grid(x as int, w as int),
        g < 0x10000,
{
    proof {
        crate::fixed::lemma_mul_bound(x as int, 0xFFFF, LIM as int, 0xFFFF);
    }
    let q: i128 = crate::fixed::div_trunc((x as i128) * 0xFFFF, w as i128);
    proof {
        crate::fixed::lemma_tdiv_bound(x as int * 0xFFFF, w as int, LIM as int * 0xFFFF);
    }
    if q < 0 {
        0
    } else if q > 0xFFFF {
        0xFFFF
    } else {
        q as u32
    }
}

/// The fan force applied to a vertical velocity.
fn apply_fan(c: Params, x: i64, y: i64, vy: i64) -> (r: i64)
    requires
        wf_params(c),
        -LIM <= x <= LIM,
        -LIM <= y <= LIM,
        -LIM <= vy <= LIM,
    ensures
        r as int == spec_fan(c, x as int, y as int, vy as int),
        -LIM <= r <= LIM,
{
    let avg: i64 = (((c.min_size as u64) + (c.max_size as u64)) / 2) as i64;
    let halfw: i64 = avg * 2;
    let center: i64 = ((c.width as u64) / 2) as i64;
    let top: i64 = ((c.height as u64) / 2) as i64;
    let dxa: i64 = if x - center < 0 {
        center - x
    } else {
        x - center
    };
    if dxa < halfw && y > top {
        proof {
            vstd::arithmetic::div_mod::lemma_div_pos_is_pos(c.height as int, 2);
            if c.height > 1 {
                vstd::arithmetic::div_mod::lemma_div_is_strictly_smaller(c.height as int, 2);
            }
        }
        proof {
            crate::fixed::lemma_mul_bound(
                y as int - top as int,
                SCALE as int,
                LIM as int + POS_LIM,
                SCALE as int,
            );
        }
        let num: i128 = ((y as i128) - (top as i128)) * (SCALE as i128);
        let dfb: i128 = crate::fixed::div_trunc(num, (c.height as i128) - (top as i128));
        proof {
            crate::fixed::lemma_tdiv_bound((y - top) * SCALE, c.height - top, (LIM as int + POS_LIM) * SCALE);
        }
        let base: i128 = crate::fixed::div_trunc(1500 * dfb, SCALE as i128);
        proof {
            crate::fixed::lemma_tdiv_shrink(
                1500 * tdiv((y - top) * SCALE, c.height as int - top),
                SCALE as int,
                1500 * (LIM as int + POS_LIM),
            );
        }
        let hfq: i128 = crate::fixed::div_trunc((dxa as i128) * (SCALE as i128), halfw as i128);
        proof {
            crate::fixed::lemma_tdiv_bound(dxa as int * SCALE, halfw as int, halfw as int * SCALE);
            assert(tdiv(dxa as int * SCALE, halfw as int) < SCALE) by (nonlinear_arith)
                requires
                    0 <= dxa < halfw,
                    0 < halfw,
                    SCALE == 1000,
            ;
        }
        let hf: i128 = (SCALE as i128) - hfq;
        proof {
            crate::fixed::lemma_mul_bound(
                base as int,
                hf as int,
                1500 * (LIM as int + POS_LIM),
                SCALE as int,
            );
        }
        let prod: i128 = base * hf;
        proof {
            crate::fixed::lemma_mul_bound(
                prod as int,
                c.fan_speed as int,
                1500 * (LIM as int + POS_LIM) * SCALE,
                LIM as int,
            );
        }
        let force: i128 = crate::fixed::div_trunc(
            prod * (c.fan_speed as i128),
            (SCALE as i128) * (SCALE as i128),
        );
        crate::fixed::clip((vy as i128) - force)
    } else {
        vy
    }
}

impl Simulation {
    /// Every stored particle is well-formed and the configuration is in range.
    pub closed spec fn wf(self) -> bool {
        &&& wf_params(self.params)
        &&& forall|i: int|
            0 <= i < self.particles@.len() ==> wf_particle(#[trigger] self.particles@[i])
    }

    pub closed spec fn spec_params(self) -> Params {
        self.params
    }

    pub closed spec fn spec_particles(self) -> Seq<Particle> {
        self.particles@
    }

    pub closed spec fn spec_rng(self) -> u64 {
        self.rng.state
    }

    /// Integrates one particle against the current configuration.
    fn update_particle(&self, p: &mut Particle)
        requires
            wf_params(self.params),
            wf_particle(*old(p)),
        ensures
            *final(p) == spec_integrate(self.params, *old(p)),
            wf_particle(*final(p)),
    {
        let c = self.params;
        let vy_g: i64 = crate::fixed::fp_add(p.vy, c.gravity);
        let vy_f: i64 = if c.fan_speed > 0 {
            apply_fan(c, p.x, p.y, vy_g)
        } else {
            vy_g
        };
        let ct: i64 = if p.color_temp > 0 {
            if p.color_temp >= COOLING {
                p.color_temp - COOLING
            } else {
                0
            }
        } else {
            p.color_temp
        };
        let x1: i64 = crate::fixed::fp_add(p.x, p.vx);
        let y1: i64 = crate::fixed::fp_add(p.y, vy_f);
        let hit_x = x1 - p.radius < 0 || x1 + p.radius > c.width;
        let x2: i64 = if hit_x {
            clamp_wall(x1, p.radius, c.width)
        } else {
            x1
        };
        let vx2: i64 = if hit_x {
            crate::fixed::fp_mul(p.vx, -c.elasticity)
        } else {
            p.vx
        };
        let hit_y = y1 - p.radius < 0 || y1 + p.radius > c.height;
        let y2: i64 = if hit_y {
            clamp_wall(y1, p.radius, c.height)
        } else {
            y1
        };
        let vy2: i64 = if hit_y {
            crate::fixed::fp_mul(vy_f, -c.elasticity)
        } else {
            vy_f
        };
        let gx = grid_coord(x2, c.width);
        let gy = grid_coord(y2, c.height);
        let z = ZOrder::encode(gx, gy);
        p.x = x2;
        p.y = y2;
        p.vx = vx2;
        p.vy = vy2;
        p.color_temp = ct;
        p.z_code = z;
    }

    /// The collision pass: sort by key, clear bookkeeping, sweep pairs under
    /// the pruning threshold, apply accumulated impulses.
    fn detect_collisions(&mut self)
        requires
            old(self).wf(),
        ensures
            final(self).params == old(self).params,
            final(self).rng == old(self).rng,
            final(self).particles@ == spec_collide_phase(old(self).params, old(self).particles@),
            final(self).particles@.len() == old(self).particles@.len(),
            final(self).wf(),
    {
        proof {
            lemma_sort_wf(self.particles@);
        }
        sort_particles(&mut self.particles);
        clear_flags(&mut self.particles);
        let thr = compute_threshold(&self.params);
        let e = self.params.elasticity;
        sweep(&mut self.particles, thr, e);
        apply_impulses(&mut self.particles);
    }

    /// Advances the simulation by one step: integration for every particle,
    /// then the collision pass. The result is a pure function of the prior
    /// state (`spec_update_field`): equal states give equal trajectories.
    pub fn update(&mut self)
        requires
            old(self).wf(),
        ensures
            final(self).wf(),
            final(self).spec_params() == old(self).spec_params(),
            final(self).spec_rng() == old(self).spec_rng(),
            final(self).spec_particles() == spec_update_field(
                old(self).spec_params(),
                old(self).spec_particles(),
            ),
            final(self).spec_particles().len() == old(self).spec_particles().len(),
    {
        let ghost orig = self.particles@;
        let n = self.particles.len();
        let mut idx: usize = 0;
        while idx < n
            invariant
                idx <= n,
                n == self.particles@.len(),
                orig.len() == n,
                self.params == old(self).params,
                self.rng == old(self).rng,
                forall|k: int|
                    0 <= k < idx ==> self.particles@[k] == spec_integrate(
                        old(self).params,
                        #[trigger] orig[k],
                    ),
                forall|k: int| 0 <= k < idx ==> wf_particle(#[trigger] self.particles@[k]),
                forall|k: int| idx <= k < n ==> #[trigger] self.particles@[k] == orig[k],
            decreases n - idx,
        {
            let mut p = self.particles[idx];
            self.update_particle(&mut p);
            self.particles.set(idx, p);
            idx = idx + 1;
        }
        proof {
            assert(self.particles@ =~= orig.map_values(
                |p: Particle| spec_integrate(old(self).params, p),
            ));
        }
        self.detect_collisions();
    }

    /// Discards and regenerates the whole population at the configured count.
    pub fn reset(&mut self)
        requires
            old(self).wf(),
        ensures
            final(self).wf(),
            final(self).spec_params() == old(self).spec_params(),
            final(self).spec_particles() == spec_reset_rec(
                old(self).spec_params(),
                old(self).spec_rng(),
                old(self).spec_params().particle_count as nat,
            ).0,
            final(self).spec_rng() == spec_reset_rec(
                old(self).spec_params(),
                old(self).spec_rng(),
                old(self).spec_params().particle_count as nat,
            ).1,
            final(self).spec_particles().len() == old(self).spec_params().particle_count,
    {
        proof {
            lemma_reset_rec_len(
                self.params,
                self.rng.state,
                self.params.particle_count as nat,
            );
        }
        let count = self.params.particle_count;
        self.particles = Vec::new();
        let mut k: usize = 0;
        while k < count
            invariant
                k <= count,
                self.params == old(self).params,
                count == self.params.particle_count,
                self.particles@ == spec_reset_rec(self.params, old(self).rng.state, k as nat).0,
                self.rng.state == spec_reset_rec(self.params, old(self).rng.state, k as nat).1,
                wf_seq(self.particles@),
            decreases count - k,
        {
            let p0 = gen_particle(self.params, &mut self.rng);
            let mut p = p0;
            self.update_particle(&mut p);
            self.particles.push(p);
            k = k + 1;
        }
    }

    /// Builds a field with the given configuration and seed, and immediately
    /// performs a full population reset.
    pub fn new(
        width: i64,
        height: i64,
        particle_count: usize,
        min_size: i64,
        max_size: i64,
        max_speed: i64,
        gravity: i64,
        elasticity: i64,
        fan_speed: i64,
        search_range: i32,
        seed: u64,
    ) -> (s: Simulation)
        requires
            1 <= width <= POS_LIM,
            1 <= height <= POS_LIM,
            RADIUS_MIN <= min_size <= SIZE_LIM,
            RADIUS_MIN <= max_size <= SIZE_LIM,
            -LIM <= max_speed <= LIM,
            -LIM <= gravity <= LIM,
            0 <= elasticity <= ELAST_LIM,
            -LIM <= fan_speed <= LIM,
        ensures
            s.wf(),
            s.spec_params() == (Params {
                width,
                height,
                particle_count,
                min_size,
                max_size,
                max_speed,
                gravity,
                elasticity,
                fan_speed,
                search_range,
            }),
            s.spec_particles() == spec_reset_rec(
                s.spec_params(),
                seed,
                particle_count as nat,
            ).0,
            s.spec_rng() == spec_reset_rec(s.spec_params(), seed, particle_count as nat).1,
            s.spec_particles().len() == particle_count,
    {
        let params = Params {
            width,
            height,
            particle_count,
            min_size,
            max_size,
            max_speed,
            gravity,
            elasticity,
            fan_speed,
            search_range,
        };
        let mut s = Simulation { params, particles: Vec::new(), rng: Rng::new(seed) };
        s.reset();
        s
    }

    /// Appends one particle at the given position with a drawn radius and
    /// temperature and zero velocity, integrated once so its clamped
    /// position and locality key are valid.
    pub fn add_particle(&mut self, x: i64, y: i64)
        requires
            old(self).wf(),
            -LIM <= x <= LIM,
            -LIM <= y <= LIM,
        ensures
            final(self).wf(),
            final(self).spec_params() == old(self).spec_params(),
            final(self).spec_particles() == old(self).spec_particles().push(
                spec_integrate(
                    old(self).spec_params(),
                    spec_add(old(self).spec_params(), old(self).spec_rng(), x, y).0,
                ),
            ),
            final(self).spec_rng() == spec_add(
                old(self).spec_params(),
                old(self).spec_rng(),
                x,
                y,
            ).1,
    {
        let u_r = self.rng.next_unit();
        let u_t = self.rng.next_unit();
        let span: i64 = self.params.max_size - self.params.min_size;
        proof {
            crate::fixed::lemma_unit_scale(u_r as int, span as int);
            crate::fixed::lemma_mul_bound(u_r as int, span as int, SCALE as int, SIZE_LIM as int);
        }
        let rq: i128 = crate::fixed::div_trunc((u_r as i128) * (span as i128), SCALE as i128);
        let radius: i64 = self.params.min_size + (rq as i64);
        let mut p = Particle::new(x, y, radius, 0, 0, u_t);
        self.update_particle(&mut p);
        self.particles.push(p);
    }

    /// Read access to the particle sequence.
    pub fn get_particles(&self) -> (r: &Vec<Particle>)
        ensures
            r@ == self.spec_particles(),
    {
        &self.particles
    }

    /// The live population size.
    pub fn get_particle_count(&self) -> (n: usize)
        ensures
            n == self.spec_particles().len(),
    {
        self.particles.len()
    }

    /// One particle by index.
    pub fn get_particle(&self, i: usize) -> (p: Particle)
        requires
            i < self.spec_particles().len(),
        ensures
            p == self.spec_particles()[i as int],
    {
        self.particles[i]
    }

    /// Overwrites one particle; the host's counterpart of its direct memory
    /// access to the particle buffer.
    pub fn set_particle(&mut self, i: usize, p: Particle)
        requires
            old(self).wf(),
            i < old(self).spec_particles().len(),
            wf_particle(p),
        ensures
            final(self).wf(),
            final(self).spec_params() == old(self).spec_params(),
            final(self).spec_rng() == old(self).spec_rng(),
            final(self).spec_particles() == old(self).spec_particles().update(i as int, p),
    {
        self.particles.set(i, p);
    }

    pub fn set_particle_count(&mut self, count: usize)
        requires
            old(self).wf(),
        ensures
            final(self).wf(),
            final(self).spec_params() == (Params { particle_count: count, ..old(self).spec_params() }),
            final(self).spec_particles() == old(self).spec_particles(),
            final(self).spec_rng() == old(self).spec_rng(),
    {
        self.params.particle_count = count;
    }

    pub fn set_min_size(&mut self, size: i64)
        requires
            old(self).wf(),
            RADIUS_MIN <= size <= SIZE_LIM,
        ensures
            final(self).wf(),
            final(self).spec_params() == (Params { min_size: size, ..old(self).spec_params() }),
            final(self).spec_particles() == old(self).spec_particles(),
            final(self).spec_rng() == old(self).spec_rng(),
    {
        self.params.min_size = size;
    }

    pub fn set_max_size(&mut self, size: i64)
        requires
            old(self).wf(),
            RADIUS_MIN <= size <= SIZE_LIM,
        ensures
            final(self).wf(),
            final(self).spec_params() == (Params { max_size: size, ..old(self).spec_params() }),
            final(self).spec_particles() == old(self).spec_particles(),
            final(self).spec_rng() == old(self).spec_rng(),
    {
        self.params.max_size = size;
    }

    pub fn set_max_speed(&mut self, speed: i64)
        requires
            old(self).wf(),
            -LIM <= speed <= LIM,
        ensures
            final(self).wf(),
            final(self).spec_params() == (Params { max_speed: speed, ..old(self).spec_params() }),
            final(self).spec_particles() == old(self).spec_particles(),
            final(self).spec_rng() == old(self).spec_rng(),
    {
        self.params.max_speed = speed;
    }

    pub fn set_gravity(&mut self, gravity: i64)
        requires
            old(self).wf(),
            -LIM <= gravity <= LIM,
        ensures
            final(self).wf(),
            final(self).spec_params() == (Params { gravity, ..old(self).spec_params() }),
            final(self).spec_particles() == old(self).spec_particles(),
            final(self).spec_rng() == old(self).spec_rng(),
    {
        self.params.gravity = gravity;
    }

    pub fn set_elasticity(&mut self, elasticity: i64)
        requires
            old(self).wf(),
            0 <= elasticity <= ELAST_LIM,
        ensures
            final(self).wf(),
            final(self).spec_params() == (Params { elasticity, ..old(self).spec_params() }),
            final(self).spec_particles() == old(self).spec_particles(),
            final(self).spec_rng() == old(self).spec_rng(),
    {
        self.params.elasticity = elasticity;
    }

    pub fn set_fan_speed(&mut self, speed: i64)
        requires
            old(self).wf(),
            -LIM <= speed <= LIM,
        ensures
            final(self).wf(),
            final(self).spec_params() == (Params { fan_speed: speed, ..old(self).spec_params() }),
            final(self).spec_particles() == old(self).spec_particles(),
            final(self).spec_rng() == old(self).spec_rng(),
    {
        self.params.fan_speed = speed;
    }

    pub fn set_search_range(&mut self, range: i32)
        requires
            old(self).wf(),
        ensures
            final(self).wf(),
            final(self).spec_params() == (Params { search_range: range, ..old(self).spec_params() }),
            final(self).spec_particles() == old(self).spec_particles(),
            final(self).spec_rng() == old(self).spec_rng(),
    {
        self.params.search_range = range;
    }
}

} // verus!
