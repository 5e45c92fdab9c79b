use particles::particle::Particle;
use particles::sim::Simulation;

/// A two-particle field with no gravity and no fan, a maximal search range
/// (the pruning threshold saturates, so no pair is skipped), and the given
/// elasticity.
fn two_body_field(elasticity: i64) -> Simulation {
    let mut sim = Simulation::new(
        100_000, 100_000, 0, 2000, 2000, 0, 0, elasticity, 0, i32::MAX, 1,
    );
    sim.add_particle(10_000, 10_000);
    sim.add_particle(90_000, 90_000);
    sim
}

fn by_smaller_x(sim: &Simulation) -> (Particle, Particle) {
    let a = sim.get_particle(0);
    let b = sim.get_particle(1);
    if a.x <= b.x {
        (a, b)
    } else {
        (b, a)
    }
}

#[test]
fn elastic_equal_mass_head_on_swaps_velocities() {
    let mut sim = two_body_field(1000);
    sim.set_particle(0, Particle::new(50_000, 50_000, 2000, 500, 0, 500));
    sim.set_particle(1, Particle::new(53_000, 50_000, 2000, -500, 0, 500));
    sim.update();
    let (left, right) = by_smaller_x(&sim);
    assert!(left.colliding && right.colliding);
    assert_eq!(left.vx, -500);
    assert_eq!(right.vx, 500);
    assert_eq!(left.vy, 0);
    assert_eq!(right.vy, 0);
}

#[test]
fn zero_elasticity_kills_relative_normal_velocity() {
    let mut sim = two_body_field(0);
    sim.set_particle(0, Particle::new(50_000, 50_000, 2000, 500, 0, 500));
    sim.set_particle(1, Particle::new(53_000, 50_000, 2000, -500, 0, 500));
    sim.update();
    let (left, right) = by_smaller_x(&sim);
    assert!(left.colliding && right.colliding);
    let rel = left.vx - right.vx;
    assert!(-1 <= rel && rel <= 0, "residual normal velocity {rel}");
}

#[test]
fn separating_overlapping_pair_gets_no_impulse() {
    let mut sim = two_body_field(1000);
    // overlapping (centers 2 units apart, radii 2+2) but moving apart
    sim.set_particle(0, Particle::new(50_000, 50_000, 2000, -500, 0, 500));
    sim.set_particle(1, Particle::new(52_000, 50_000, 2000, 500, 0, 500));
    sim.update();
    let (left, right) = by_smaller_x(&sim);
    // flagged and re-heated, but neither velocity nor position was touched
    assert!(left.colliding && right.colliding);
    assert_eq!(left.color_temp, 1000);
    assert_eq!(right.color_temp, 1000);
    assert_eq!(left.vx, -500);
    assert_eq!(right.vx, 500);
    // integration moved each by its own velocity only: no de-penetration
    assert_eq!(left.x, 49_500);
    assert_eq!(right.x, 52_500);
}

#[test]
fn overlapping_pair_is_pushed_apart() {
    let mut sim = two_body_field(1000);
    sim.set_particle(0, Particle::new(50_000, 50_000, 2000, 0, 0, 500));
    sim.set_particle(1, Particle::new(52_000, 50_000, 2000, 0, 0, 500));
    sim.update();
    let (left, right) = by_smaller_x(&sim);
    assert!(left.colliding && right.colliding);
    // positional correction separated the centers along the axis
    assert!(right.x - left.x > 2000);
}

#[test]
fn maximal_search_range_detects_the_only_close_pair() {
    // a spread-out population plus exactly one overlapping pair; with the
    // threshold saturated the sweep degenerates to all-pairs, so the pair
    // cannot be missed whatever its key gap is
    let mut sim = Simulation::new(
        100_000, 100_000, 0, 1000, 1000, 0, 0, 1000, 0, i32::MAX, 1,
    );
    for _ in 0..6 {
        sim.add_particle(0, 0);
    }
    sim.set_particle(0, Particle::new(5_000, 5_000, 1000, 0, 0, 500));
    sim.set_particle(1, Particle::new(95_000, 5_000, 1000, 0, 0, 500));
    sim.set_particle(2, Particle::new(5_000, 95_000, 1000, 0, 0, 500));
    sim.set_particle(3, Particle::new(95_000, 95_000, 1000, 0, 0, 500));
    // the close pair straddles the vertical midline: maximally distant in
    // key space, still detected
    sim.set_particle(4, Particle::new(49_500, 50_000, 1000, 0, 0, 500));
    sim.set_particle(5, Particle::new(50_500, 50_000, 1000, 0, 0, 500));
    sim.update();
    let mut colliding = 0;
    for i in 0..sim.get_particle_count() {
        if sim.get_particle(i).colliding {
            colliding += 1;
        }
    }
    assert_eq!(colliding, 2);
    for i in 0..sim.get_particle_count() {
        let p = sim.get_particle(i);
        assert_eq!(p.colliding, p.x > 40_000 && p.x < 60_000);
    }
}

#[test]
fn color_temp_flashes_on_impact_and_cools() {
    let mut sim = two_body_field(1000);
    sim.set_particle(0, Particle::new(50_000, 50_000, 2000, 500, 0, 700));
    sim.set_particle(1, Particle::new(53_000, 50_000, 2000, -500, 0, 700));
    sim.update();
    let (left, _) = by_smaller_x(&sim);
    assert_eq!(left.color_temp, 1000);
    // once separated, the temperature decays by 10 per step
    let mut sim2 = two_body_field(1000);
    sim2.set_particle(0, Particle::new(20_000, 20_000, 2000, 0, 0, 700));
    sim2.set_particle(1, Particle::new(80_000, 80_000, 2000, 0, 0, 700));
    sim2.update();
    assert_eq!(sim2.get_particle(0).color_temp, 690);
    sim2.update();
    assert_eq!(sim2.get_particle(0).color_temp, 680);
}
