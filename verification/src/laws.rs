//! The stated properties of the kernel, proved against the spec functions
//! that the executable code is pinned to: the mass formula, wall
//! containment, the elastic and inelastic collision laws, the behaviour of
//! separating pairs, the degeneracy of the pruned sweep at a saturated
//! threshold, and determinism.
use vstd::prelude::*;
use crate::fixed::{SCALE, LIM, sat, tdiv, spec_isqrt};
use crate::particle::{Particle, wf_particle};
use crate::sim::{
    Params, wf_params, wf_seq, spec_integrate, spec_collide_pair, spec_sort,
    sorted_insert, spec_clear, spec_clear_one, spec_apply, spec_apply_one, spec_sweep,
    spec_inner, spec_pair_upd, spec_gap, spec_update_field, spec_reset_rec, spec_threshold,
    lemma_sort_wf, lemma_inner_len,
};

verus! {

/// The inner scan without the pruning cutoff: every partner is visited.
pub open spec fn spec_inner_all(s: Seq<Particle>, e: int, i: int, j: int) -> Seq<Particle>
    decreases s.len() - j,
{
    if j >= s.len() || i < 0 || i >= j {
        s
    } else {
        spec_inner_all(spec_pair_upd(s, i, j, e), e, i, j + 1)
    }
}

pub proof fn lemma_inner_all_len(s: Seq<Particle>, e: int, i: int, j: int)
    ensures
        spec_inner_all(s, e, i, j).len() == s.len(),
    decreases s.len() - j,
{
    if j >= s.len() || i < 0 || i >= j {
    } else {
        lemma_inner_all_len(spec_pair_upd(s, i, j, e), e, i, j + 1);
    }
}

/// The exhaustive all-pairs sweep.
pub open spec fn spec_sweep_all(s: Seq<Particle>, e: int, i: int) -> Seq<Particle>
    decreases s.len() - i,
    via spec_sweep_all_dec
{
    if i < 0 || i >= s.len() {
        s
    } else {
        spec_sweep_all(spec_inner_all(s, e, i, i + 1), e, i + 1)
    }
}

#[via_fn]
proof fn spec_sweep_all_dec(s: Seq<Particle>, e: int, i: int) {
    if 0 <= i < s.len() {
        lemma_inner_all_len(s, e, i, i + 1);
    }
}

proof fn lemma_inner_max_threshold(s: Seq<Particle>, e: int, i: int, j: int)
    ensures
        spec_inner(s, 0xFFFF_FFFFu32, e, i, j) == spec_inner_all(s, e, i, j),
    decreases s.len() - j,
{
    if j >= s.len() || i < 0 || i >= j {
    } else {
        assert(0 <= spec_gap(s[i].z_code, s[j].z_code) < 0x1_0000_0000) by {
            vstd::arithmetic::div_mod::lemma_mod_bound(
                (s[j].z_code as int) + 0x1_0000_0000 - (s[i].z_code as int),
                0x1_0000_0000,
            );
        }
        lemma_inner_max_threshold(spec_pair_upd(s, i, j, e), e, i, j + 1);
    }
}

/// Pruning correctness in the degenerate limit: with the key-space
/// threshold at its maximum, the pruned sweep visits every pair — it is
/// exactly the all-pairs sweep, so no collision can be pruned away.
pub proof fn lemma_max_threshold_scans_all_pairs(s: Seq<Particle>, e: int, i: int)
    ensures
        spec_sweep(s, 0xFFFF_FFFFu32, e, i) == spec_sweep_all(s, e, i),
    decreases s.len() - i,
{
    if 0 <= i < s.len() {
        lemma_inner_max_threshold(s, e, i, i + 1);
        lemma_inner_len(s, 0xFFFF_FFFFu32, e, i, i + 1);
        lemma_max_threshold_scans_all_pairs(spec_inner_all(s, e, i, i + 1), e, i + 1);
    }
}

/// The two disks overlap.
pub open spec fn overlapping(p: Particle, q: Particle) -> bool {
    (p.x - q.x) * (p.x - q.x) + (p.y - q.y) * (p.y - q.y) < (p.radius + q.radius) * (p.radius
        + q.radius)
}

/// Pair resolution never clears a collision flag, and sets both flags of an
/// overlapping pair.
proof fn lemma_collide_keeps_flags(p1: Particle, p2: Particle, e: int)
    ensures
        p1.colliding ==> spec_collide_pair(p1, p2, e).0.colliding,
        p2.colliding ==> spec_collide_pair(p1, p2, e).1.colliding,
        overlapping(p1, p2) ==> spec_collide_pair(p1, p2, e).0.colliding && spec_collide_pair(
            p1,
            p2,
            e,
        ).1.colliding,
{
}

/// A set collision flag survives the rest of the inner scan.
proof fn lemma_inner_all_keeps_flag(s: Seq<Particle>, e: int, i: int, j: int, k: int)
    requires
        0 <= k < s.len(),
        s[k].colliding,
    ensures
        spec_inner_all(s, e, i, j).len() == s.len(),
        spec_inner_all(s, e, i, j)[k].colliding,
    decreases s.len() - j,
{
    lemma_inner_all_len(s, e, i, j);
    if j >= s.len() || i < 0 || i >= j {
    } else {
        let s2 = spec_pair_upd(s, i, j, e);
        lemma_collide_keeps_flags(s[i], s[j], e);
        assert(s2[k].colliding);
        lemma_inner_all_keeps_flag(s2, e, i, j + 1, k);
    }
}

/// A set collision flag survives the rest of the sweep.
proof fn lemma_sweep_all_keeps_flag(s: Seq<Particle>, e: int, i: int, k: int)
    requires
        0 <= k < s.len(),
        s[k].colliding,
    ensures
        spec_sweep_all(s, e, i).len() == s.len(),
        spec_sweep_all(s, e, i)[k].colliding,
    decreases s.len() - i,
{
    if 0 <= i < s.len() {
        lemma_inner_all_keeps_flag(s, e, i, i + 1, k);
        lemma_sweep_all_keeps_flag(spec_inner_all(s, e, i, i + 1), e, i + 1, k);
    }
}

/// An anchor whose remaining partners are all clear of it scans through
/// without changing anything.
proof fn lemma_inner_all_anchor_id(s: Seq<Particle>, e: int, i: int, j: int)
    requires
        0 <= i < s.len(),
        i < j,
        forall|b: int| j <= b < s.len() ==> !overlapping(s[i], #[trigger] s[b]),
    ensures
        spec_inner_all(s, e, i, j) == s,
    decreases s.len() - j,
{
    if j >= s.len() {
    } else {
        assert(spec_pair_upd(s, i, j, e) =~= s);
        lemma_inner_all_anchor_id(s, e, i, j + 1);
    }
}

/// The inner scan from `j0` flags the pair `(i, j)` when the partners
/// before `j` are clear of the anchor and `(i, j)` overlaps.
proof fn lemma_inner_all_hits(s: Seq<Particle>, e: int, i: int, j0: int, j: int)
    requires
        0 <= i < j0 <= j < s.len(),
        overlapping(s[i], s[j]),
        forall|b: int| j0 <= b < j ==> !overlapping(s[i], #[trigger] s[b]),
    ensures
        spec_inner_all(s, e, i, j0).len() == s.len(),
        spec_inner_all(s, e, i, j0)[i].colliding,
        spec_inner_all(s, e, i, j0)[j].colliding,
    decreases j - j0,
{
    lemma_inner_all_len(s, e, i, j0);
    if j0 == j {
        let s2 = spec_pair_upd(s, i, j, e);
        lemma_collide_keeps_flags(s[i], s[j], e);
        assert(s2[i].colliding && s2[j].colliding);
        lemma_inner_all_keeps_flag(s2, e, i, j + 1, i);
        lemma_inner_all_keeps_flag(s2, e, i, j + 1, j);
    } else {
        assert(!overlapping(s[i], s[j0]));
        assert(spec_pair_upd(s, i, j0, e) =~= s);
        lemma_inner_all_hits(s, e, i, j0 + 1, j);
    }
}

proof fn lemma_sweep_all_from_detects(s: Seq<Particle>, e: int, a: int, i: int, j: int)
    requires
        0 <= a <= i < j < s.len(),
        overlapping(s[i], s[j]),
        forall|x: int, y: int|
            #![trigger s[x], s[y]]
            0 <= x < y < s.len() && !(x == i && y == j) ==> !overlapping(s[x], s[y]),
    ensures
        spec_sweep_all(s, e, a).len() == s.len(),
        spec_sweep_all(s, e, a)[i].colliding,
        spec_sweep_all(s, e, a)[j].colliding,
    decreases i - a,
{
    if a < i {
        lemma_inner_all_anchor_id(s, e, a, a + 1);
        lemma_sweep_all_from_detects(s, e, a + 1, i, j);
    } else {
        lemma_inner_all_hits(s, e, i, i + 1, j);
        let s2 = spec_inner_all(s, e, i, i + 1);
        lemma_sweep_all_keeps_flag(s2, e, i + 1, i);
        lemma_sweep_all_keeps_flag(s2, e, i + 1, j);
    }
}

/// Pruning correctness lower bound: in a population whose only overlapping
/// pair is `(i, j)`, the sweep with a saturated key-space threshold — which
/// degenerates to all-pairs — always flags both partners of that pair,
/// whatever their keys and wherever the sort put them.
pub proof fn lemma_lone_close_pair_detected(s: Seq<Particle>, e: int, i: int, j: int)
    requires
        0 <= i < j < s.len(),
        overlapping(s[i], s[j]),
        forall|x: int, y: int|
            #![trigger s[x], s[y]]
            0 <= x < y < s.len() && !(x == i && y == j) ==> !overlapping(s[x], s[y]),
    ensures
        spec_sweep(s, 0xFFFF_FFFFu32, e, 0)[i].colliding,
        spec_sweep(s, 0xFFFF_FFFFu32, e, 0)[j].colliding,
{
    lemma_max_threshold_scans_all_pairs(s, e, 0);
    lemma_sweep_all_from_detects(s, e, 0, i, j);
}

/// No false separation: a pair that geometrically overlaps but is already
/// separating along the contact normal (`dvn > 0`) is flagged and re-heated
/// but receives no impulse and no positional correction.
pub proof fn lemma_separating_pair_untouched(p1: Particle, p2: Particle, e: int)
    requires
        ({
            let dx = p1.x - p2.x;
            let dy = p1.y - p2.y;
            let dist_sq = dx * dx + dy * dy;
            let rsum = p1.radius + p2.radius;
            let dist = spec_isqrt(dist_sq);
            &&& dist_sq < rsum * rsum
            &&& dist != 0
            &&& tdiv(
                (p1.vx - p2.vx) * tdiv(dx * SCALE, dist) + (p1.vy - p2.vy) * tdiv(
                    dy * SCALE,
                    dist,
                ),
                SCALE as int,
            ) > 0
        }),
    ensures
        spec_collide_pair(p1, p2, e).0 == (Particle {
            colliding: true,
            color_temp: SCALE,
            ..p1
        }),
        spec_collide_pair(p1, p2, e).1 == (Particle {
            colliding: true,
            color_temp: SCALE,
            ..p2
        }),
{
}

/// Determinism: one step is a pure function of the configuration and the
/// particle state, so two fields with identical configuration and identical
/// populations produce identical trajectories; with identical seeds, even
/// the regenerated populations coincide.
pub proof fn lemma_step_deterministic(
    c1: Params,
    s1: Seq<Particle>,
    c2: Params,
    s2: Seq<Particle>,
)
    requires
        c1 == c2,
        s1 == s2,
    ensures
        spec_update_field(c1, s1) == spec_update_field(c2, s2),
{
}

/// Determinism of regeneration: equal configurations and equal generator
/// states give bit-identical populations.
pub proof fn lemma_reset_deterministic(c1: Params, st1: u64, c2: Params, st2: u64)
    requires
        c1 == c2,
        st1 == st2,
    ensures
        spec_reset_rec(c1, st1, c1.particle_count as nat) == spec_reset_rec(
            c2,
            st2,
            c2.particle_count as nat,
        ),
{
}

/// The particle's whole disk lies inside the walls.
pub open spec fn in_walls(p: Particle, c: Params) -> bool {
    &&& p.radius <= p.x <= c.width - p.radius
    &&& p.radius <= p.y <= c.height - p.radius
}

/// Integration leaves a particle whose disk fits the world inside the walls:
/// either no wall was hit and the position was already inside, or the clamp
/// put it back inside.
pub proof fn lemma_integrate_contained(c: Params, p: Particle)
    requires
        wf_params(c),
        wf_particle(p),
        2 * p.radius <= c.width,
        2 * p.radius <= c.height,
    ensures
        in_walls(spec_integrate(c, p), c),
{
}

/// No two particles of the sequence overlap.
pub open spec fn no_overlap(s: Seq<Particle>) -> bool {
    forall|i: int, j: int|
        #![trigger s[i], s[j]]
        0 <= i < j < s.len() ==> (s[i].x - s[j].x) * (s[i].x - s[j].x) + (s[i].y - s[j].y) * (
        s[i].y - s[j].y) >= (s[i].radius + s[j].radius) * (s[i].radius + s[j].radius)
}

proof fn lemma_inner_no_overlap_id(s: Seq<Particle>, thr: u32, e: int, i: int, j: int)
    requires
        no_overlap(s),
        0 <= i,
    ensures
        spec_inner(s, thr, e, i, j) == s,
    decreases s.len() - j,
{
    if j >= s.len() || i < 0 || i >= j {
    } else if spec_gap(s[i].z_code, s[j].z_code) > thr {
    } else {
        assert(spec_pair_upd(s, i, j, e) =~= s);
        lemma_inner_no_overlap_id(spec_pair_upd(s, i, j, e), thr, e, i, j + 1);
    }
}

proof fn lemma_sweep_no_overlap_id(s: Seq<Particle>, thr: u32, e: int, i: int)
    requires
        no_overlap(s),
        0 <= i,
    ensures
        spec_sweep(s, thr, e, i) == s,
    decreases s.len() - i,
{
    if 0 <= i < s.len() {
        lemma_inner_no_overlap_id(s, thr, e, i, i + 1);
        lemma_sweep_no_overlap_id(s, thr, e, i + 1);
    }
}

proof fn lemma_sorted_insert_contains(s: Seq<Particle>, p: Particle, x: Particle)
    ensures
        sorted_insert(s, p).contains(x) <==> (s.contains(x) || x == p),
    decreases s.len(),
{
    if s.len() == 0 {
        assert(sorted_insert(s, p) == seq![p]);
        assert(sorted_insert(s, p)[0] == p);
        assert(s.contains(x) ==> false);
    } else if p.z_code < s.last().z_code {
        lemma_sorted_insert_contains(s.drop_last(), p, x);
        assert(sorted_insert(s, p) == sorted_insert(s.drop_last(), p).push(s.last()));
        vstd::seq_lib::lemma_seq_contains_after_push(sorted_insert(s.drop_last(), p), s.last(), x);
        assert(s.contains(x) <==> (s.drop_last().contains(x) || x == s.last())) by {
            assert(s =~= s.drop_last().push(s.last()));
            vstd::seq_lib::lemma_seq_contains_after_push(s.drop_last(), s.last(), x);
        }
    } else {
        vstd::seq_lib::lemma_seq_contains_after_push(s, p, x);
    }
}

proof fn lemma_sort_contains(s: Seq<Particle>, x: Particle)
    ensures
        spec_sort(s).contains(x) <==> s.contains(x),
    decreases s.len(),
{
    if s.len() == 0 {
    } else {
        lemma_sort_contains(s.drop_last(), x);
        lemma_sorted_insert_contains(spec_sort(s.drop_last()), s.last(), x);
        assert(s.contains(x) <==> (s.drop_last().contains(x) || x == s.last())) by {
            assert(s =~= s.drop_last().push(s.last()));
            vstd::seq_lib::lemma_seq_contains_after_push(s.drop_last(), s.last(), x);
        }
    }
}

/// Wall containment through a whole step: if after integration and sorting
/// no two particles overlap, the collision pass moves no particle, so every
/// particle of the stepped population still has its whole disk inside the
/// walls. (When overlaps do occur, the positional de-penetration that
/// separates them can push a disk past a wall within that step; the next
/// integration clamps it back.)
pub proof fn lemma_wall_containment(c: Params, s: Seq<Particle>)
    requires
        wf_params(c),
        wf_seq(s),
        forall|k: int|
            0 <= k < s.len() ==> 2 * (#[trigger] s[k]).radius <= c.width && 2 * s[k].radius
                <= c.height,
        no_overlap(spec_clear(spec_sort(s.map_values(|p: Particle| spec_integrate(c, p))))),
    ensures
        forall|k: int|
            0 <= k < spec_update_field(c, s).len() ==> in_walls(
                #[trigger] spec_update_field(c, s)[k],
                c,
            ),
{
    let integrated = s.map_values(|p: Particle| spec_integrate(c, p));
    let sorted = spec_sort(integrated);
    let cleared = spec_clear(sorted);
    let thr = spec_threshold(c);
    let e = c.elasticity as int;
    assert forall|k: int| 0 <= k < integrated.len() implies in_walls(
        #[trigger] integrated[k],
        c,
    ) by {
        lemma_integrate_contained(c, s[k]);
    }
    lemma_sort_wf(integrated);
    assert forall|k: int| 0 <= k < sorted.len() implies in_walls(#[trigger] sorted[k], c) by {
        assert(sorted.contains(sorted[k]));
        lemma_sort_contains(integrated, sorted[k]);
        let m = choose|m: int| 0 <= m < integrated.len() && integrated[m] == sorted[k];
        assert(in_walls(integrated[m], c));
    }
    lemma_sweep_no_overlap_id(cleared, thr, e, 0);
    assert(spec_update_field(c, s) == spec_apply(cleared));
    assert forall|k: int| 0 <= k < spec_update_field(c, s).len() implies in_walls(
        #[trigger] spec_update_field(c, s)[k],
        c,
    ) by {
        assert(spec_update_field(c, s)[k] == spec_apply_one(cleared[k]));
        assert(cleared[k] == spec_clear_one(sorted[k]));
        assert(in_walls(sorted[k], c));
    }
}

/// Momentum sanity: for two equal-mass particles meeting head-on along the
/// horizontal axis at full elasticity, the collision pass swaps their
/// horizontal velocities exactly and leaves the vertical ones alone.
pub proof fn lemma_elastic_swap(p1: Particle, p2: Particle)
    requires
        wf_particle(p1),
        wf_particle(p2),
        p1.radius == p2.radius,
        p1.y == p2.y,
        p1.x != p2.x,
        (p1.x - p2.x) * (p1.x - p2.x) < (p1.radius + p2.radius) * (p1.radius + p2.radius),
        p1.x < p2.x ==> p1.vx >= p2.vx,
        p1.x > p2.x ==> p1.vx <= p2.vx,
        -LIM <= p1.vx - p2.vx <= LIM,
        p1.impulse_x == 0,
        p1.impulse_y == 0,
        p2.impulse_x == 0,
        p2.impulse_y == 0,
    ensures
        ({
            let r = spec_collide_pair(p1, p2, SCALE as int);
            &&& spec_apply_one(r.0).vx == p2.vx
            &&& spec_apply_one(r.1).vx == p1.vx
            &&& spec_apply_one(r.0).vy == p1.vy
            &&& spec_apply_one(r.1).vy == p2.vy
        }),
{
    let dx: int = p1.x - p2.x;
    let adx: int = if dx < 0 {
        -dx
    } else {
        dx
    };
    let s: int = if dx < 0 {
        -1int
    } else {
        1int
    };
    let rsum: int = p1.radius + p2.radius;
    let dist_sq: int = dx * dx;
    assert((p1.y - p2.y) * (p1.y - p2.y) == 0) by (nonlinear_arith)
        requires
            p1.y == p2.y,
    ;
    assert(adx * adx == dist_sq && dist_sq < (adx + 1) * (adx + 1) && dx == s * adx) by (
    nonlinear_arith)
        requires
            adx == (if dx < 0 {
                -dx
            } else {
                dx
            }),
            s == (if dx < 0 {
                -1int
            } else {
                1int
            }),
            dist_sq == dx * dx,
    ;
    crate::fixed::lemma_isqrt_is(dist_sq, adx);
    assert(adx > 0);
    assert(adx < rsum) by (nonlinear_arith)
        requires
            adx >= 0,
            rsum > 0,
            adx * adx == dist_sq,
            dist_sq < rsum * rsum,
    ;
    // the unit normal is (s, 0)
    assert(dx * SCALE == (s * (SCALE as int)) * adx) by (nonlinear_arith)
        requires
            dx == s * adx,
    ;
    crate::fixed::lemma_tdiv_exact(s * (SCALE as int), adx);
    assert(tdiv(dx * SCALE, adx) == s * SCALE);
    assert((p1.y - p2.y) * SCALE == 0int * adx);
    crate::fixed::lemma_tdiv_exact(0int, adx);
    assert(tdiv((p1.y - p2.y) * SCALE, adx) == 0);
    // the relative velocity along the normal
    let dvx: int = p1.vx - p2.vx;
    let dvn: int = dvx * s;
    assert(dvx * (s * (SCALE as int)) + (p1.vy - p2.vy) * 0 == dvn * (SCALE as int)) by (
    nonlinear_arith)
        requires
            dvn == dvx * s,
    ;
    crate::fixed::lemma_tdiv_exact(dvn, SCALE as int);
    assert(dvn <= 0);
    // equal masses
    assert(p1.mass == p2.mass);
    let m: int = p1.mass as int;
    crate::particle::lemma_mass_bounds(p1.radius as int);
    let msum: int = p1.mass + p2.mass;
    assert(SCALE * msum > 0);
    // the along-normal velocity changes are -dvn and +dvn exactly
    assert((-((SCALE as int) + (SCALE as int))) * dvn * m == (-dvn) * (SCALE * msum)) by (
    nonlinear_arith)
        requires
            msum == m + m,
    ;
    assert(((SCALE as int) + (SCALE as int)) * dvn * m == dvn * (SCALE * msum)) by (
    nonlinear_arith)
        requires
            msum == m + m,
    ;
    crate::fixed::lemma_tdiv_exact(-dvn, SCALE * msum);
    crate::fixed::lemma_tdiv_exact(dvn, SCALE * msum);
    // back to axis components: the x-impulses are -dvx and +dvx
    assert((-dvn) * (s * (SCALE as int)) == (-dvx) * (SCALE as int) && dvn * (s * (SCALE as int))
        == dvx * (SCALE as int)) by (nonlinear_arith)
        requires
            dvn == dvx * s,
            s == 1 || s == -1,
    ;
    crate::fixed::lemma_tdiv_exact(-dvx, SCALE as int);
    crate::fixed::lemma_tdiv_exact(dvx, SCALE as int);
    assert((-dvn) * 0 == 0int * (SCALE as int)) by (nonlinear_arith);
    assert(dvn * 0 == 0int * (SCALE as int)) by (nonlinear_arith);
    crate::fixed::lemma_tdiv_exact(0int, SCALE as int);
    let r = spec_collide_pair(p1, p2, SCALE as int);
    assert(r.0.vx == p1.vx && r.0.impulse_x == sat(-dvx) && r.0.impulse_y == 0);
    assert(r.1.vx == p2.vx && r.1.impulse_x == sat(dvx) && r.1.impulse_y == 0);
    assert(sat(-dvx) == -dvx && sat(dvx) == dvx);
    assert(sat(p1.vx + (-dvx)) == p2.vx);
    assert(sat(p2.vx + dvx) == p1.vx);
}

/// Restitution bound: for a head-on collision along the horizontal axis
/// with zero elasticity, the post-collision relative velocity along the
/// contact normal is zero up to one sub-unit of truncation.
pub proof fn lemma_inelastic_normal_stop(p1: Particle, p2: Particle)
    requires
        wf_particle(p1),
        wf_particle(p2),
        p1.y == p2.y,
        p1.x != p2.x,
        (p1.x - p2.x) * (p1.x - p2.x) < (p1.radius + p2.radius) * (p1.radius + p2.radius),
        p1.x < p2.x ==> p1.vx >= p2.vx,
        p1.x > p2.x ==> p1.vx <= p2.vx,
        -LIM <= p1.vx - p2.vx <= LIM,
        p1.impulse_x == 0,
        p1.impulse_y == 0,
        p2.impulse_x == 0,
        p2.impulse_y == 0,
    ensures
        ({
            let r = spec_collide_pair(p1, p2, 0);
            let w1 = spec_apply_one(r.0);
            let w2 = spec_apply_one(r.1);
            let post = if p1.x > p2.x {
                w1.vx - w2.vx
            } else {
                w2.vx - w1.vx
            };
            &&& -1 <= post <= 0
            &&& w1.vy == p1.vy
            &&& w2.vy == p2.vy
        }),
{
    let dx: int = p1.x - p2.x;
    let adx: int = if dx < 0 {
        -dx
    } else {
        dx
    };
    let s: int = if dx < 0 {
        -1int
    } else {
        1int
    };
    let rsum: int = p1.radius + p2.radius;
    let dist_sq: int = dx * dx;
    assert((p1.y - p2.y) * (p1.y - p2.y) == 0) by (nonlinear_arith)
        requires
            p1.y == p2.y,
    ;
    assert(adx * adx == dist_sq && dist_sq < (adx + 1) * (adx + 1) && dx == s * adx) by (
    nonlinear_arith)
        requires
            adx == (if dx < 0 {
                -dx
            } else {
                dx
            }),
            s == (if dx < 0 {
                -1int
            } else {
                1int
            }),
            dist_sq == dx * dx,
    ;
    crate::fixed::lemma_isqrt_is(dist_sq, adx);
    assert(adx > 0);
    assert(adx < rsum) by (nonlinear_arith)
        requires
            adx >= 0,
            rsum > 0,
            adx * adx == dist_sq,
            dist_sq < rsum * rsum,
    ;
    assert(dx * SCALE == (s * (SCALE as int)) * adx) by (nonlinear_arith)
        requires
            dx == s * adx,
    ;
    crate::fixed::lemma_tdiv_exact(s * (SCALE as int), adx);
    assert((p1.y - p2.y) * SCALE == 0int * adx);
    crate::fixed::lemma_tdiv_exact(0int, adx);
    let dvx: int = p1.vx - p2.vx;
    let dvn: int = dvx * s;
    assert(dvx * (s * (SCALE as int)) + (p1.vy - p2.vy) * 0 == dvn * (SCALE as int)) by (
    nonlinear_arith)
        requires
            dvn == dvx * s,
    ;
    crate::fixed::lemma_tdiv_exact(dvn, SCALE as int);
    assert(dvn <= 0);
    crate::particle::lemma_mass_bounds(p1.radius as int);
    crate::particle::lemma_mass_bounds(p2.radius as int);
    let m1: int = p1.mass as int;
    let m2: int = p2.mass as int;
    let msum: int = m1 + m2;
    assert(msum > 0);
    // with zero elasticity the scale factor cancels out of both impulses
    let a: int = (-dvn) * m2;
    let b: int = (-dvn) * m1;
    assert((-((SCALE as int) + 0)) * dvn * m2 == a * (SCALE as int) && ((SCALE as int) + 0) * dvn
        * m1 == (-b) * (SCALE as int)) by (nonlinear_arith)
        requires
            a == (-dvn) * m2,
            b == (-dvn) * m1,
    ;
    crate::fixed::lemma_tdiv_cancel(a, msum, SCALE as int);
    crate::fixed::lemma_tdiv_cancel(-b, msum, SCALE as int);
    assert(tdiv((-((SCALE as int) + 0)) * dvn * m2, SCALE * msum) == tdiv(a, msum)) by {
        assert(a * (SCALE as int) == a * (SCALE as int));
        assert(SCALE * msum == msum * (SCALE as int)) by (nonlinear_arith);
    }
    assert(tdiv(((SCALE as int) + 0) * dvn * m1, SCALE * msum) == tdiv(-b, msum)) by {
        assert(SCALE * msum == msum * (SCALE as int)) by (nonlinear_arith);
    }
    // the two quotients in plain Euclidean form
    assert(a >= 0 && b >= 0) by (nonlinear_arith)
        requires
            dvn <= 0,
            m1 > 0,
            m2 > 0,
            a == (-dvn) * m2,
            b == (-dvn) * m1,
    ;
    let dv1n: int = a / msum;
    let dv2n: int = -(b / msum);
    assert(tdiv(a, msum) == dv1n);
    assert(tdiv(-b, msum) == dv2n);
    // bounds: each along-normal change is at most the full approach speed
    assert(a <= (-dvn) * msum && b <= (-dvn) * msum) by (nonlinear_arith)
        requires
            dvn <= 0,
            m1 > 0,
            m2 > 0,
            msum == m1 + m2,
            a == (-dvn) * m2,
            b == (-dvn) * m1,
    ;
    vstd::arithmetic::div_mod::lemma_div_pos_is_pos(a, msum);
    vstd::arithmetic::div_mod::lemma_div_pos_is_pos(b, msum);
    vstd::arithmetic::div_mod::lemma_div_is_ordered(a, (-dvn) * msum, msum);
    vstd::arithmetic::div_mod::lemma_div_is_ordered(b, (-dvn) * msum, msum);
    vstd::arithmetic::div_mod::lemma_div_by_multiple(-dvn, msum);
    assert(0 <= dv1n <= -dvn);
    assert(dvn <= dv2n <= 0);
    // impulses back on the axis
    assert(dv1n * (s * (SCALE as int)) == (s * dv1n) * (SCALE as int) && dv2n * (s * (
    SCALE as int)) == (s * dv2n) * (SCALE as int)) by (nonlinear_arith);
    crate::fixed::lemma_tdiv_exact(s * dv1n, SCALE as int);
    crate::fixed::lemma_tdiv_exact(s * dv2n, SCALE as int);
    assert(dv1n * 0 == 0int * (SCALE as int)) by (nonlinear_arith);
    assert(dv2n * 0 == 0int * (SCALE as int)) by (nonlinear_arith);
    crate::fixed::lemma_tdiv_exact(0int, SCALE as int);
    let r = spec_collide_pair(p1, p2, 0);
    assert(r.0.impulse_x == sat(s * dv1n) && r.0.impulse_y == 0 && r.0.vx == p1.vx && r.0.vy
        == p1.vy);
    assert(r.1.impulse_x == sat(s * dv2n) && r.1.impulse_y == 0 && r.1.vx == p2.vx && r.1.vy
        == p2.vy);
    assert(sat(s * dv1n) == s * dv1n && sat(s * dv2n) == s * dv2n) by (nonlinear_arith)
        requires
            s == 1 || s == -1,
            0 <= dv1n <= -dvn,
            dvn <= dv2n <= 0,
            -LIM <= dvn <= 0,
    ;
    // neither velocity leaves the representable band
    let w1x: int = p1.vx + s * dv1n;
    let w2x: int = p2.vx + s * dv2n;
    assert(-LIM <= w1x <= LIM && -LIM <= w2x <= LIM && (if p1.x > p2.x {
        w1x - w2x
    } else {
        w2x - w1x
    }) == dvn + dv1n - dv2n) by (nonlinear_arith)
        requires
            s == (if dx < 0 {
                -1int
            } else {
                1int
            }),
            dx == p1.x - p2.x,
            dx != 0,
            dvn == dvx * s,
            dvx == p1.vx - p2.vx,
            0 <= dv1n <= -dvn,
            dvn <= dv2n <= 0,
            -LIM <= p1.vx <= LIM,
            -LIM <= p2.vx <= LIM,
            w1x == p1.vx + s * dv1n,
            w2x == p2.vx + s * dv2n,
    ;
    // the truncation errors of the two quotients sum to zero or one step
    vstd::arithmetic::div_mod::lemma_fundamental_div_mod(a, msum);
    vstd::arithmetic::div_mod::lemma_fundamental_div_mod(b, msum);
    vstd::arithmetic::div_mod::lemma_mod_bound(a, msum);
    vstd::arithmetic::div_mod::lemma_mod_bound(b, msum);
    let q: int = a / msum + b / msum + dvn;
    assert(a + b == (-dvn) * msum) by (nonlinear_arith)
        requires
            a == (-dvn) * m2,
            b == (-dvn) * m1,
            msum == m1 + m2,
    ;
    assert(msum * q == -(a % msum) - (b % msum)) by (nonlinear_arith)
        requires
            a == msum * (a / msum) + a % msum,
            b == msum * (b / msum) + b % msum,
            a + b == (-dvn) * msum,
            q == a / msum + b / msum + dvn,
    ;
    assert(-2 < q <= 0) by (nonlinear_arith)
        requires
            msum > 0,
            0 <= a % msum < msum,
            0 <= b % msum < msum,
            msum * q == -(a % msum) - (b % msum),
    ;
    assert(dvn + dv1n - dv2n == q);
}

} // verus!
