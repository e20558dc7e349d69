use particle_sim::particles::{ParticleSet, SimParams};
use particle_sim::snapshot::snapshot;
use particle_sim::fx::SCALE;

fn params(gravity: i64, bound: i64) -> SimParams {
    SimParams {
        gravity,
        dt: SCALE / 10,
        bounce: -800_000,
        bound_min_x: -bound,
        bound_max_x: bound,
        bound_min_y: -bound,
        bound_max_y: bound,
    }
}

fn one_particle(px: i64, py: i64, vx: i64, vy: i64) -> ParticleSet {
    let mut ps = ParticleSet::new(1, 4);
    ps.set_positions(&vec![px], &vec![py]);
    ps.set_velocities(&vec![vx], &vec![vy]);
    ps
}

#[test]
fn pure_linear_motion_without_gravity() {
    // Half a unit per second to the right, a quarter up; dt = 0.1.
    let mut ps = one_particle(0, 0, 500_000, 250_000);
    ps.tick(&params(0, 1_000 * SCALE));
    let s = snapshot(&ps);
    assert_eq!(s.xs, vec![50_000]);
    assert_eq!(s.ys, vec![25_000]);
    assert_eq!(ps.vel_x[0], 500_000);
    assert_eq!(ps.vel_y[0], 250_000);
}

#[test]
fn clamping_keeps_positions_inside_bounds() {
    // Starts near the upper bound moving right: integrated past it, clamped.
    let mut ps = one_particle(950_000, 0, SCALE, 0);
    ps.tick(&params(0, SCALE));
    let s = snapshot(&ps);
    assert_eq!(s.xs, vec![SCALE]);
    assert!(s.xs[0] <= SCALE && s.xs[0] >= -SCALE);
}

#[test]
fn bounce_reverses_and_damps_velocity() {
    // Crossing the upper x bound reverses the velocity at 0.8 magnitude.
    let mut ps = one_particle(950_000, 0, SCALE, 0);
    ps.tick(&params(0, SCALE));
    assert_eq!(ps.vel_x[0], -800_000);
}

#[test]
fn bounce_at_lower_bound() {
    let mut ps = one_particle(-950_000, 0, -SCALE, 0);
    ps.tick(&params(0, SCALE));
    let s = snapshot(&ps);
    assert_eq!(s.xs, vec![-SCALE]);
    assert_eq!(ps.vel_x[0], 800_000);
}

#[test]
fn four_particles_under_gravity() {
    // A 2x2 arrangement, at rest, gravity -1, dt 0.1, huge bounds: after one
    // tick every y velocity is -0.1 and every y position fell by 0.01.
    let xs0 = vec![0, SCALE, 0, SCALE];
    let ys0 = vec![0, 0, SCALE, SCALE];
    let mut ps = ParticleSet::new(4, 4);
    ps.set_positions(&xs0, &ys0);
    ps.tick(&params(-SCALE, 1_000 * SCALE));
    let s = snapshot(&ps);
    for i in 0..4 {
        assert_eq!(ps.vel_y[i], -100_000);
        assert_eq!(ps.vel_x[i], 0);
        assert_eq!(s.ys[i], ys0[i] - 10_000);
        assert_eq!(s.xs[i], xs0[i]);
    }
}

#[test]
fn lane_width_does_not_change_results() {
    // The same initial state simulated with lane width 4 and lane width 32
    // gives identical positions after several ticks.
    let spacing = 2 * SCALE;
    let mut a = ParticleSet::grid_layout(10, 4, spacing);
    let mut b = ParticleSet::grid_layout(10, 32, spacing);
    let vx: Vec<i64> = (0..10).map(|i| (i as i64 - 5) * 100_000).collect();
    let vy: Vec<i64> = (0..10).map(|i| (5 - i as i64) * 70_000).collect();
    a.set_velocities(&vx, &vy);
    b.set_velocities(&vx, &vy);
    let p = params(-SCALE, 1_000 * SCALE);
    for _ in 0..5 {
        a.tick(&p);
        b.tick(&p);
    }
    let sa = snapshot(&a);
    let sb = snapshot(&b);
    assert_eq!(sa.xs, sb.xs);
    assert_eq!(sa.ys, sb.ys);
    assert_ne!(a.pos_x.len(), b.pos_x.len());
}

#[test]
fn grid_layout_centers_particles() {
    // Four particles, side 2, spacing 1: cells (0,0),(1,0),(0,1),(1,1)
    // centered on the origin give coordinates -1 and 0.
    let ps = ParticleSet::grid_layout(4, 4, SCALE);
    let s = snapshot(&ps);
    assert_eq!(s.xs, vec![-SCALE, 0, -SCALE, 0]);
    assert_eq!(s.ys, vec![-SCALE, -SCALE, 0, 0]);
    assert_eq!(&ps.vel_x[..4], &[0, 0, 0, 0]);
    assert_eq!(&ps.vel_y[..4], &[0, 0, 0, 0]);
}

#[test]
fn empty_set_ticks() {
    let mut ps = ParticleSet::new(0, 8);
    ps.tick(&params(-SCALE, SCALE));
    let s = snapshot(&ps);
    assert_eq!(s.xs.len(), 0);
}

#[test]
fn empty_layout_is_empty() {
    let ps = ParticleSet::grid_layout(0, 4, SCALE);
    assert_eq!(snapshot(&ps).xs.len(), 0);
}
