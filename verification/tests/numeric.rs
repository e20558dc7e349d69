use particle_sim::fx::{
    fx_add, fx_sub, fx_mul, fx_div, fx_abs, fx_clamp, fx_half, fx_sqrt, isqrt_u128, FX_MAX, SCALE,
};
use particle_sim::limited::LimitedVec;
use particle_sim::rng::random_velocities;
use rand::SeedableRng;

#[test]
fn products_rescale() {
    // 0.1 * 0.1 == 0.01 exactly on the millionth grid.
    assert_eq!(fx_mul(100_000, 100_000), 10_000);
    assert_eq!(fx_mul(-SCALE, 100_000), -100_000);
    assert_eq!(fx_mul(2 * SCALE, 3 * SCALE), 6 * SCALE);
}

#[test]
fn products_round_toward_zero() {
    // 0.0005 * -0.3 = -0.00015, below one grid step: truncates to zero.
    assert_eq!(fx_mul(500, -300), 0);
    assert_eq!(fx_mul(-500, 300), 0);
    assert_eq!(fx_half(-3), -1);
    assert_eq!(fx_half(3), 1);
}

#[test]
fn addition_saturates() {
    assert_eq!(fx_add(FX_MAX, FX_MAX), FX_MAX);
    assert_eq!(fx_sub(-FX_MAX, FX_MAX), -FX_MAX);
    assert_eq!(fx_add(1, 2), 3);
}

#[test]
fn quotients_prescale() {
    assert_eq!(fx_div(SCALE, 3 * SCALE), 333_333);
    assert_eq!(fx_div(SCALE, 2 * SCALE), 500_000);
    assert_eq!(fx_div(-SCALE, 2 * SCALE), -500_000);
}

#[test]
fn square_roots_floor_on_the_grid() {
    assert_eq!(fx_sqrt(4 * SCALE), 2 * SCALE);
    assert_eq!(fx_sqrt(2 * SCALE), 1_414_213);
    assert_eq!(fx_sqrt(0), 0);
    assert_eq!(isqrt_u128(0), 0);
    assert_eq!(isqrt_u128(15), 3);
    assert_eq!(isqrt_u128(16), 4);
    assert_eq!(isqrt_u128(1_000_000_000_000), 1_000_000);
}

#[test]
fn clamp_and_abs() {
    assert_eq!(fx_clamp(5, -1, 1), 1);
    assert_eq!(fx_clamp(-5, -1, 1), -1);
    assert_eq!(fx_clamp(0, -1, 1), 0);
    assert_eq!(fx_abs(-7), 7);
    assert_eq!(fx_abs(7), 7);
}

#[test]
fn limited_vec_shows_a_short_prefix() {
    let short: LimitedVec<i64> = LimitedVec(vec![1, 2]);
    assert_eq!(short.shown_len(), 2);
    assert!(!short.elided());
    let exact: LimitedVec<i64> = LimitedVec(vec![1, 2, 3, 4]);
    assert_eq!(exact.shown_len(), 4);
    assert!(!exact.elided());
    let long: LimitedVec<i64> = LimitedVec(vec![0; 9]);
    assert_eq!(long.shown_len(), 4);
    assert!(long.elided());
}

#[test]
fn random_velocities_stay_in_range() {
    let mut rng = rand::rngs::StdRng::seed_from_u64(7);
    let v = random_velocities(&mut rng, 200, -SCALE, SCALE);
    assert_eq!(v.len(), 200);
    assert!(v.iter().all(|&x| -SCALE <= x && x < SCALE));
    // A real draw, not an echo of the bounds or a constant.
    assert!(v.iter().any(|&x| x != v[0]));
}

#[test]
fn seeded_draws_are_reproducible() {
    let mut r1 = rand::rngs::StdRng::seed_from_u64(42);
    let mut r2 = rand::rngs::StdRng::seed_from_u64(42);
    let a = random_velocities(&mut r1, 32, -SCALE, SCALE);
    let b = random_velocities(&mut r2, 32, -SCALE, SCALE);
    assert_eq!(a, b);
}

#[test]
fn isqrt_of_the_largest_input() {
    assert_eq!(isqrt_u128(u128::MAX), u64::MAX as u128);
}
