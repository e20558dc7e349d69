use particle_sim::particles::ParticleSet;
use particle_sim::snapshot::{snapshot, sleep_budget_ns, should_report, FrameSnapshot, SnapshotSlot};

fn frame(tag: i64) -> FrameSnapshot {
    FrameSnapshot { xs: vec![tag], ys: vec![-tag] }
}

#[test]
fn snapshot_copies_positions_in_order() {
    let mut ps = ParticleSet::new(3, 8);
    ps.set_positions(&vec![5, -7, 9], &vec![1, 2, 3]);
    let s = snapshot(&ps);
    assert_eq!(s.xs, vec![5, -7, 9]);
    assert_eq!(s.ys, vec![1, 2, 3]);
    // The lane arrays are padded past the logical count; the snapshot is not.
    assert!(ps.pos_x.len() > 3);
    assert_eq!(s.xs.len(), 3);
}

#[test]
fn unpolled_publishes_never_block_and_latest_wins() {
    // The consumer never polls while the worker publishes repeatedly; its
    // eventual single poll sees only the most recent snapshot.
    let mut slot = SnapshotSlot::new();
    assert!(slot.publish(frame(1)));
    for tag in 2..100i64 {
        assert!(!slot.publish(frame(tag)));
    }
    let got = slot.poll().expect("a snapshot is pending");
    assert_eq!(got.xs, vec![99]);
    assert_eq!(got.ys, vec![-99]);
    assert!(slot.poll().is_none());
}

#[test]
fn publish_after_drain_is_fresh() {
    let mut slot = SnapshotSlot::new();
    assert!(slot.publish(frame(1)));
    assert!(slot.poll().is_some());
    assert!(slot.publish(frame(2)));
    assert_eq!(slot.poll().unwrap().xs, vec![2]);
}

#[test]
fn pacing_sleeps_the_remainder() {
    assert_eq!(sleep_budget_ns(5_000_000, 16_000_000), 11_000_000);
    assert_eq!(sleep_budget_ns(16_000_000, 16_000_000), 0);
    assert_eq!(sleep_budget_ns(40_000_000, 16_000_000), 0);
    assert_eq!(sleep_budget_ns(0, 16_000_000), 16_000_000);
}

#[test]
fn report_every_sixty_frames() {
    assert!(should_report(0, 60));
    assert!(!should_report(1, 60));
    assert!(!should_report(59, 60));
    assert!(should_report(60, 60));
    assert!(should_report(120, 60));
}
