use particles::fixed::{fp_add, fp_div, fp_mul, isqrt, LIM, SCALE};
use particles::particle::Particle;
use particles::sim::Simulation;
use particles::zorder::ZOrder;

fn disk_mass(radius: i64) -> i64 {
    ((3142i128 * radius as i128 * radius as i128) / (1_000_000i128)) as i64
}

#[test]
fn fixed_point_ops() {
    assert_eq!(SCALE, 1000);
    assert_eq!(fp_add(2500, -700), 1800);
    assert_eq!(fp_add(LIM, LIM), LIM);
    assert_eq!(fp_add(-LIM, -LIM), -LIM);
    assert_eq!(fp_mul(1500, 2000), 3000);
    assert_eq!(fp_mul(-1500, 2000), -3000);
    assert_eq!(fp_div(1000, 3000), 333);
    assert_eq!(isqrt(10), 3);
    assert_eq!(isqrt(0), 0);
    assert_eq!(isqrt(144), 12);
}

#[test]
fn zorder_encode_interleaves_bits() {
    assert_eq!(ZOrder::encode(0, 0), 0);
    assert_eq!(ZOrder::encode(0xFFFF, 0), 0x5555_5555);
    assert_eq!(ZOrder::encode(0, 0xFFFF), 0xAAAA_AAAA);
    assert_eq!(ZOrder::encode(0xFFFF, 0xFFFF), 0xFFFF_FFFF);
    assert_eq!(ZOrder::encode(3, 5), 39);
    assert_eq!(ZOrder::encode(1, 0), 1);
    assert_eq!(ZOrder::encode(0, 1), 2);
}

#[test]
fn mass_formula_for_generated_particles() {
    let sim = Simulation::new(
        100_000, 100_000, 50, 1000, 5000, 2000, 100, 900, 0, 2, 7,
    );
    assert_eq!(sim.get_particle_count(), 50);
    for i in 0..sim.get_particle_count() {
        let p = sim.get_particle(i);
        assert!(p.radius >= 1000 && p.radius <= 5000);
        assert_eq!(p.mass, disk_mass(p.radius));
    }
}

#[test]
fn particle_new_mass() {
    let p = Particle::new(50_000, 50_000, 5000, 0, 0, 500);
    assert_eq!(p.mass, 78_550);
    assert!(!p.colliding);
    assert_eq!(p.impulse_x, 0);
    assert_eq!(p.impulse_y, 0);
}

#[test]
fn wall_containment_over_many_steps() {
    // one falling, bouncing particle never leaves the walls
    let mut sim = Simulation::new(
        100_000, 80_000, 0, 2000, 2000, 0, 150, 800, 0, 1, 3,
    );
    sim.add_particle(30_000, 10_000);
    for _ in 0..5000 {
        sim.update();
        let p = sim.get_particle(0);
        assert!(p.radius <= p.x && p.x <= 100_000 - p.radius);
        assert!(p.radius <= p.y && p.y <= 80_000 - p.radius);
    }
}

#[test]
fn determinism_same_seed_same_trajectories() {
    let mut a = Simulation::new(
        100_000, 100_000, 40, 1000, 4000, 3000, 120, 950, 500, 3, 99,
    );
    let mut b = Simulation::new(
        100_000, 100_000, 40, 1000, 4000, 3000, 120, 950, 500, 3, 99,
    );
    for _ in 0..25 {
        a.update();
        b.update();
    }
    assert_eq!(a.get_particle_count(), b.get_particle_count());
    for i in 0..a.get_particle_count() {
        assert_eq!(a.get_particle(i), b.get_particle(i));
    }
}

#[test]
fn scenario_single_particle_gravity_and_bounce() {
    // field 100x100 world units, one particle at rest at the center,
    // radius 5, gravity 0.1, full elasticity, no fan
    let mut sim = Simulation::new(
        100_000, 100_000, 0, 5000, 5000, 0, 100, 1000, 0, 1, 42,
    );
    sim.add_particle(50_000, 50_000);
    sim.set_particle(0, Particle::new(50_000, 50_000, 5000, 0, 0, 500));
    sim.update();
    let p = sim.get_particle(0);
    assert_eq!(p.x, 50_000);
    assert_eq!(p.y, 50_100);
    assert_eq!(p.vx, 0);
    assert_eq!(p.vy, 100);
    // fall until the floor is hit: the velocity inverts, scaled by the
    // elasticity (here exactly preserved)
    let mut bounced = false;
    for _ in 0..2000 {
        let before = sim.get_particle(0);
        sim.update();
        let after = sim.get_particle(0);
        if after.vy < 0 {
            assert_eq!(after.vy, -(before.vy + 100));
            assert_eq!(after.y, 95_000);
            bounced = true;
            break;
        }
    }
    assert!(bounced);
}

#[test]
fn setters_take_effect_on_next_reset() {
    let mut sim = Simulation::new(
        100_000, 100_000, 5, 1000, 2000, 0, 0, 500, 0, 1, 11,
    );
    assert_eq!(sim.get_particle_count(), 5);
    sim.set_particle_count(9);
    // the live population is untouched until the next reset
    assert_eq!(sim.get_particle_count(), 5);
    sim.reset();
    assert_eq!(sim.get_particle_count(), 9);
}

#[test]
fn add_particle_appends_and_integrates() {
    let mut sim = Simulation::new(
        100_000, 100_000, 0, 3000, 3000, 0, 100, 1000, 0, 1, 5,
    );
    sim.add_particle(20_000, 20_000);
    assert_eq!(sim.get_particle_count(), 1);
    let p = sim.get_particle(0);
    // one integration already ran: gravity applied, position advanced
    assert_eq!(p.radius, 3000);
    assert_eq!(p.vx, 0);
    assert_eq!(p.vy, 100);
    assert_eq!(p.y, 20_100);
    assert_eq!(p.mass, disk_mass(3000));
}

#[test]
fn fan_pushes_particles_up_inside_the_column() {
    // fan band: central column of width 4*avg_size, lower half of the world
    let mut sim = Simulation::new(
        100_000, 100_000, 0, 2000, 2000, 0, 0, 1000, 1000, 1, 13,
    );
    sim.add_particle(0, 0);
    sim.set_particle(0, Particle::new(50_000, 75_000, 2000, 0, 0, 500));
    sim.update();
    let p = sim.get_particle(0);
    // depth fraction 0.5, base force 1.5 * 0.5, full horizontal factor:
    // upward velocity 0.75, position follows
    assert_eq!(p.vy, -750);
    assert_eq!(p.y, 74_250);
}

#[test]
fn fan_misses_particles_outside_the_column_or_above_the_band() {
    let mut sim = Simulation::new(
        100_000, 100_000, 0, 2000, 2000, 0, 0, 1000, 1000, 1, 13,
    );
    sim.add_particle(0, 0);
    sim.add_particle(0, 0);
    // outside the central column
    sim.set_particle(0, Particle::new(60_000, 75_000, 2000, 0, 0, 500));
    // inside the column but above the vertical midpoint
    sim.set_particle(1, Particle::new(50_000, 25_000, 2000, 0, 0, 500));
    sim.update();
    for i in 0..2 {
        let p = sim.get_particle(i);
        assert_eq!(p.vy, 0);
    }
}

#[test]
fn color_temp_floors_at_zero() {
    let mut sim = Simulation::new(
        100_000, 100_000, 0, 2000, 2000, 0, 0, 1000, 0, 1, 13,
    );
    sim.add_particle(0, 0);
    sim.set_particle(0, Particle::new(50_000, 50_000, 2000, 0, 0, 5));
    sim.update();
    assert_eq!(sim.get_particle(0).color_temp, 0);
    sim.update();
    assert_eq!(sim.get_particle(0).color_temp, 0);
}
