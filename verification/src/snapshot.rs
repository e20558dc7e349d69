//! The snapshot publisher: per-frame position extraction, the single-slot
//! latest-wins channel model, and the pacing decisions of the worker loop.
//!
//! A snapshot is an immutable copy of one frame's positions. The slot never
//! blocks: publishing overwrites an undrained snapshot, so a slow consumer
//! sees either the most recent frame or an older one, never a torn one, and
//! never one out of order.

use vstd::prelude::*;
use crate::particles::ParticleSet;

verus! {

/// One frame's render-ready particle positions, in particle-index order.
pub struct FrameSnapshot {
    pub xs: Vec<i64>,
    pub ys: Vec<i64>,
}

impl FrameSnapshot {
    /// Both axes present for every particle.
    pub open spec fn wf(self) -> bool {
        self.xs@.len() == self.ys@.len()
    }
}

/// Extract the current frame's snapshot: the positions of the live
/// particles, unpacked from the lane arrays in index order.
pub fn snapshot(ps: &ParticleSet) -> (s: FrameSnapshot)
    requires
        ps.wf(),
    ensures
        s.wf(),
        s.xs@.len() == ps.count,
        forall|i: int| 0 <= i < ps.count ==> #[trigger] s.xs@[i] == ps.pos_x@[i],
        forall|i: int| 0 <= i < ps.count ==> #[trigger] s.ys@[i] == ps.pos_y@[i],
{
    let n: usize = ps.count;
    let mut xs: Vec<i64> = Vec::new();
    let mut ys: Vec<i64> = Vec::new();
    let mut i: usize = 0;
    while i < n
        invariant
            ps.wf(),
            n == ps.count,
            i <= n,
            xs@.len() == i,
            ys@.len() == i,
            forall|k: int| 0 <= k < i ==> #[trigger] xs@[k] == ps.pos_x@[k],
            forall|k: int| 0 <= k < i ==> #[trigger] ys@[k] == ps.pos_y@[k],
        decreases n - i,
    {
        xs.push(ps.pos_x[i]);
        ys.push(ps.pos_y[i]);
        i = i + 1;
    }
    FrameSnapshot { xs, ys }
}

/// The cross-thread hand-off point, modeled: a single-slot, non-blocking,
/// latest-wins channel. The worker publishes into it; the consumer polls.
pub struct SnapshotSlot {
    slot: Option<FrameSnapshot>,
}

impl SnapshotSlot {
    /// The undrained snapshot, if one is pending.
    pub closed spec fn pending(self) -> Option<FrameSnapshot> {
        self.slot
    }

    /// An empty slot.
    pub fn new() -> (r: SnapshotSlot)
        ensures
            r.pending() is None,
    {
        SnapshotSlot { slot: None }
    }

    /// Publish a snapshot without ever blocking: the new snapshot becomes
    /// the pending one, overwriting an undrained predecessor. Returns true
    /// when the slot was empty — false means the consumer lost an older
    /// frame in favor of this newest one.
    pub fn publish(&mut self, s: FrameSnapshot) -> (fresh: bool)
        ensures
            final(self).pending() == Some(s),
            fresh == old(self).pending() is None,
    {
        let fresh = self.slot.is_none();
        self.slot = Some(s);
        fresh
    }

    /// Poll without ever blocking: takes the pending snapshot, leaving the
    /// slot empty; `None` when the worker has published nothing new.
    pub fn poll(&mut self) -> (r: Option<FrameSnapshot>)
        ensures
            r == old(self).pending(),
            final(self).pending() is None,
    {
        self.slot.take()
    }
}

/// The pending snapshot after a sequence of publishes into a slot whose
/// pending snapshot was `st`.
pub open spec fn publish_all(st: Option<FrameSnapshot>, msgs: Seq<FrameSnapshot>) -> Option<
    FrameSnapshot,
>
    decreases msgs.len(),
{
    if msgs.len() == 0 {
        st
    } else {
        publish_all(Some(msgs.first()), msgs.drop_first())
    }
}

/// Latest wins: however many snapshots are published and however the slot
/// began, a single later poll sees exactly the most recently published
/// snapshot — every intermediate one is dropped, none is reordered.
pub proof fn lemma_latest_wins(st: Option<FrameSnapshot>, msgs: Seq<FrameSnapshot>)
    requires
        msgs.len() > 0,
    ensures
        publish_all(st, msgs) == Some(msgs.last()),
    decreases msgs.len(),
{
    if msgs.len() == 1 {
        assert(publish_all(st, msgs) == publish_all(Some(msgs.first()), msgs.drop_first()));
        assert(msgs.drop_first().len() == 0);
        assert(msgs.first() == msgs.last());
    } else {
        lemma_latest_wins(Some(msgs.first()), msgs.drop_first());
        assert(msgs.drop_first().last() == msgs.last());
    }
}

/// How long the worker sleeps after a tick that took `elapsed_ns`: the
/// remainder of the target frame interval, or nothing when the tick ran
/// over (the loop free-runs, it never tries to catch up).
pub fn sleep_budget_ns(elapsed_ns: u64, target_ns: u64) -> (r: u64)
    ensures
        r as int == if elapsed_ns as int >= target_ns as int {
            0int
        } else {
            target_ns - elapsed_ns
        },
{
    if elapsed_ns >= target_ns {
        0
    } else {
        target_ns - elapsed_ns
    }
}

/// Whether this frame emits the periodic timing report: every `every`-th
/// frame, an observability signal and nothing more.
pub fn should_report(frame: u64, every: u64) -> (r: bool)
    requires
        1 <= every,
    ensures
        r <==> frame as int % every as int == 0,
{
    frame % every == 0
}

} // verus!
