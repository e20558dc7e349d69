use particle_sim::particles::ParticleSet;
use particle_sim::collision::{resolve, resolve_pair, CollisionParams};
use particle_sim::grid::{SpatialHashGrid, cell_coord};
use particle_sim::snapshot::snapshot;
use particle_sim::fx::SCALE;

fn cparams() -> CollisionParams {
    CollisionParams {
        cell_size: 300_000,
        radius: 200_000,
        damping: 500_000,
        repulsion: SCALE,
        correction: 200_000,
        min_dist: 1_000,
    }
}

fn two_approaching() -> ParticleSet {
    // 0.1 units apart on the x axis, closing at speed 1 from each side.
    let mut ps = ParticleSet::new(2, 4);
    ps.set_positions(&vec![0, 100_000], &vec![0, 0]);
    ps.set_velocities(&vec![SCALE, -SCALE], &vec![0, 0]);
    ps
}

#[test]
fn head_on_pair_separates() {
    // After one pass the pair is no longer approaching along the normal.
    let mut ps = two_approaching();
    resolve(&mut ps, &cparams());
    assert_eq!(&ps.vel_x[..2], &[-600_000, 600_000]);
    assert_eq!(&ps.vel_y[..2], &[0, 0]);
    let relative = ps.vel_x[1] - ps.vel_x[0];
    assert!(relative >= 0);
    let s = snapshot(&ps);
    assert_eq!(s.xs, vec![-10_000, 110_000]);
    assert_eq!(s.ys, vec![0, 0]);
}

#[test]
fn pair_impulse_is_equal_and_opposite() {
    // The velocity change of one particle is the exact negation of the
    // other's, impulse and repulsion included.
    let mut ps = two_approaching();
    resolve(&mut ps, &cparams());
    assert_eq!(ps.vel_x[0] - SCALE, -(ps.vel_x[1] - (-SCALE)));
    assert_eq!(snapshot(&ps).xs[0] - 0, -(snapshot(&ps).xs[1] - 100_000));
}

#[test]
fn distant_pair_is_untouched() {
    // Farther apart than the radius: the pass changes nothing.
    let mut ps = ParticleSet::new(2, 4);
    ps.set_positions(&vec![0, 250_000], &vec![0, 0]);
    ps.set_velocities(&vec![SCALE, -SCALE], &vec![0, 0]);
    resolve(&mut ps, &cparams());
    assert_eq!(&ps.vel_x[..2], &[SCALE, -SCALE]);
    assert_eq!(snapshot(&ps).xs, vec![0, 250_000]);
}

#[test]
fn coincident_pair_is_skipped() {
    // Closer than the near-zero guard: no normal exists, nothing happens.
    let mut ps = ParticleSet::new(2, 4);
    ps.set_positions(&vec![0, 0], &vec![0, 0]);
    ps.set_velocities(&vec![SCALE, -SCALE], &vec![0, 0]);
    resolve(&mut ps, &cparams());
    assert_eq!(&ps.vel_x[..2], &[SCALE, -SCALE]);
}

#[test]
fn receding_pair_feels_repulsion_only() {
    // Overlapping but moving apart: no damped impulse, only repulsion and
    // positional correction.
    let d = resolve_pair(
        0, 0, -SCALE, 0, // lower particle, moving away to the left
        100_000, 0, SCALE, 0, // higher particle, moving away to the right
        &cparams(),
    );
    // Penetration 0.1, repulsion 1.0 => velocity push 0.1 along +x.
    assert_eq!(d, (100_000, 0, 10_000, 0));
}

#[test]
fn grid_build_is_idempotent() {
    // Building the broad phase twice over the same unmutated state yields
    // identical bucket contents everywhere the particles sit.
    let mut ps = ParticleSet::new(4, 4);
    ps.set_positions(&vec![0, SCALE, 0, SCALE], &vec![0, 0, SCALE, SCALE]);
    let g1 = SpatialHashGrid::build(&ps, SCALE);
    let g2 = SpatialHashGrid::build(&ps, SCALE);
    for cx in -2..3i64 {
        for cy in -2..3i64 {
            assert_eq!(g1.candidates(cx, cy), g2.candidates(cx, cy));
        }
    }
    // And the 3x3 gather around the origin sees all four particles, bucket
    // by bucket in scan order.
    assert_eq!(g1.candidates(0, 0), vec![0, 2, 1, 3]);
}

#[test]
fn cell_coord_floors_toward_negative_infinity() {
    assert_eq!(cell_coord(0, SCALE), 0);
    assert_eq!(cell_coord(999_999, SCALE), 0);
    assert_eq!(cell_coord(SCALE, SCALE), 1);
    assert_eq!(cell_coord(-1, SCALE), -1);
    assert_eq!(cell_coord(-SCALE, SCALE), -1);
    assert_eq!(cell_coord(-SCALE - 1, SCALE), -2);
}

#[test]
fn resolve_pass_leaves_far_cluster_alone() {
    // A pair inside the radius and a third particle far away: only the pair
    // moves.
    let mut ps = ParticleSet::new(3, 4);
    ps.set_positions(&vec![0, 100_000, 10 * SCALE], &vec![0, 0, 0]);
    ps.set_velocities(&vec![SCALE, -SCALE, 123_456], &vec![0, 0, 77]);
    resolve(&mut ps, &cparams());
    assert_eq!(ps.vel_x[2], 123_456);
    assert_eq!(ps.vel_y[2], 77);
    assert_eq!(snapshot(&ps).xs[2], 10 * SCALE);
    assert_eq!(ps.vel_x[0], -600_000);
}
