//! Lane-packed particle state and the per-tick integrator.
//!
//! Positions and velocities are stored in flat arrays, over-allocated to the
//! next multiple of the lane width; index `i` denotes the same particle in
//! every array. A tick applies gravity to the vertical velocity, integrates
//! both position axes, clamps positions to the rectangular bounds, and
//! reflects the velocity (scaled by a negative bounce factor of magnitude
//! below one) on every axis whose bound was crossed.

use vstd::prelude::*;
use vstd::pervasive::VecAdditionalExecFns;
use crate::fx::{
    SCALE, fx_ok, all_fx_ok, fx_add, fx_add_s, fx_mul, fx_mul_s, fx_clamp, fx_clamp_s, iabs,
    lemma_fx_mul_neg, lemma_fx_mul_nonneg, lemma_fx_mul_shrinks, HALF_SCALE, isqrt_s,
};

verus! {

/// Integration parameters of one simulation tick.
pub struct SimParams {
    /// Gravity applied to the vertical velocity each tick (fixed-point).
    pub gravity: i64,
    /// Timestep (fixed-point).
    pub dt: i64,
    /// Boundary reflection factor: negative, magnitude below one.
    pub bounce: i64,
    /// Horizontal extent of the box.
    pub bound_min_x: i64,
    pub bound_max_x: i64,
    /// Vertical extent of the box.
    pub bound_min_y: i64,
    pub bound_max_y: i64,
}

impl SimParams {
    /// Validity of the parameters: everything representable, a reflecting
    /// and energy-losing bounce factor, and a non-empty box.
    pub open spec fn wf(self) -> bool {
        &&& fx_ok(self.gravity as int)
        &&& fx_ok(self.dt as int)
        &&& -(SCALE as int) < (self.bounce as int) < 0
        &&& fx_ok(self.bound_min_x as int)
        &&& fx_ok(self.bound_max_x as int)
        &&& fx_ok(self.bound_min_y as int)
        &&& fx_ok(self.bound_max_y as int)
        &&& self.bound_min_x <= self.bound_max_x
        &&& self.bound_min_y <= self.bound_max_y
    }
}

/// The velocity of one axis after gravity, before any reflection.
pub open spec fn pre_bounce_vel(v: int, g: int, dt: int) -> int {
    fx_add_s(v, fx_mul_s(g, dt))
}

/// The position of one axis after integration, before clamping.
pub open spec fn integrated_pos(p: int, v: int, g: int, dt: int) -> int {
    fx_add_s(p, fx_mul_s(pre_bounce_vel(v, g, dt), dt))
}

/// One axis of one particle through one tick: gravity, integration, clamp,
/// reflection. Returns the new `(position, velocity)`.
pub open spec fn axis_step(p: int, v: int, g: int, dt: int, lo: int, hi: int, bounce: int) -> (
    int,
    int,
) {
    let v1 = pre_bounce_vel(v, g, dt);
    let p1 = integrated_pos(p, v, g, dt);
    let p2 = fx_clamp_s(p1, lo, hi);
    let v2 = if p1 > hi {
        fx_mul_s(v1, bounce)
    } else {
        v1
    };
    let v3 = if p1 < lo {
        fx_mul_s(v2, bounce)
    } else {
        v2
    };
    (p2, v3)
}

/// Side of the initial layout grid: the least `s` with `s * s >= count`.
pub open spec fn grid_side_s(count: int) -> int {
    if isqrt_s(count) * isqrt_s(count) == count {
        isqrt_s(count)
    } else {
        isqrt_s(count) + 1
    }
}

/// Fixed-point coordinate of layout cell `c` on a side of `side` cells,
/// `spacing` units apart and centered on the origin.
pub open spec fn grid_slot_coord(c: int, side: int, spacing: int) -> int {
    fx_mul_s(c * (SCALE as int) - side * (HALF_SCALE as int), spacing)
}

/// Particle `i` of `s` sits on its layout-grid slot: cell `(i % side, i / side)`.
pub open spec fn on_layout_grid(s: ParticleSet, spacing: int, i: int) -> bool {
    let side = grid_side_s(s.count as int);
    &&& s.pos_x@[i] as int == grid_slot_coord(i % side, side, spacing)
    &&& s.pos_y@[i] as int == grid_slot_coord(i / side, side, spacing)
}

/// Fixed-point coordinate of layout cell `c`, executably.
fn layout_coord(c: usize, side: usize, spacing: i64) -> (r: i64)
    requires
        c < side,
        side <= 1_000_001,
        fx_ok(spacing as int),
    ensures
        r as int == grid_slot_coord(c as int, side as int, spacing as int),
        fx_ok(r as int),
{
    let base: i64 = (c as i64) * SCALE - (side as i64) * HALF_SCALE;
    fx_mul(base, spacing)
}

/// The length the lane arrays take for `count` particles: `count` rounded up
/// to a multiple of the lane width.
pub open spec fn padded_len(count: int, w: int) -> int {
    ((count + w - 1) / w) * w
}

/// The particle state owned by the integrator.
pub struct ParticleSet {
    pub pos_x: Vec<i64>,
    pub pos_y: Vec<i64>,
    pub vel_x: Vec<i64>,
    pub vel_y: Vec<i64>,
    /// Logical particle count; array slots at or past `count` are inert.
    pub count: usize,
    /// Number of scalar slots per lane.
    pub lane_width: usize,
}

impl ParticleSet {
    /// Structural invariant: equal array lengths padded to the lane width,
    /// and every stored value representable.
    pub open spec fn wf(self) -> bool {
        &&& self.lane_width >= 1
        &&& self.pos_x.len() == padded_len(self.count as int, self.lane_width as int)
        &&& self.pos_y.len() == self.pos_x.len()
        &&& self.vel_x.len() == self.pos_x.len()
        &&& self.vel_y.len() == self.pos_x.len()
        &&& self.count <= self.pos_x.len()
        &&& all_fx_ok(self.pos_x@)
        &&& all_fx_ok(self.pos_y@)
        &&& all_fx_ok(self.vel_x@)
        &&& all_fx_ok(self.vel_y@)
    }

    /// Horizontal positions of the live particles, as mathematical integers.
    pub open spec fn xs(self) -> Seq<int> {
        Seq::new(self.count as nat, |i: int| self.pos_x@[i] as int)
    }

    /// Vertical positions of the live particles.
    pub open spec fn ys(self) -> Seq<int> {
        Seq::new(self.count as nat, |i: int| self.pos_y@[i] as int)
    }

    /// Horizontal velocities of the live particles.
    pub open spec fn vxs(self) -> Seq<int> {
        Seq::new(self.count as nat, |i: int| self.vel_x@[i] as int)
    }

    /// Vertical velocities of the live particles.
    pub open spec fn vys(self) -> Seq<int> {
        Seq::new(self.count as nat, |i: int| self.vel_y@[i] as int)
    }

    /// A set of `count` particles at the origin, at rest.
    pub fn new(count: usize, lane_width: usize) -> (r: ParticleSet)
        requires
            1 <= lane_width,
            count + lane_width <= usize::MAX,
        ensures
            r.wf(),
            r.count == count,
            r.lane_width == lane_width,
            forall|i: int| 0 <= i < r.pos_x.len() ==> #[trigger] r.pos_x@[i] == 0,
            forall|i: int| 0 <= i < r.pos_y.len() ==> #[trigger] r.pos_y@[i] == 0,
            forall|i: int| 0 <= i < r.vel_x.len() ==> #[trigger] r.vel_x@[i] == 0,
            forall|i: int| 0 <= i < r.vel_y.len() ==> #[trigger] r.vel_y@[i] == 0,
    {
        proof {
            lemma_padded_len_bounds(count as int, lane_width as int);
        }
        let padded: usize = ((count + lane_width - 1) / lane_width) * lane_width;
        ParticleSet {
            pos_x: zero_vec(padded),
            pos_y: zero_vec(padded),
            vel_x: zero_vec(padded),
            vel_y: zero_vec(padded),
            count,
            lane_width,
        }
    }

    /// Overwrite the positions of the live particles; velocities and inert
    /// tail slots are untouched.
    pub fn set_positions(&mut self, px: &Vec<i64>, py: &Vec<i64>)
        requires
            old(self).wf(),
            px@.len() == old(self).count,
            py@.len() == old(self).count,
            forall|i: int| 0 <= i < old(self).count ==> fx_ok(#[trigger] px@[i] as int),
            forall|i: int| 0 <= i < old(self).count ==> fx_ok(#[trigger] py@[i] as int),
        ensures
            final(self).wf(),
            final(self).count == old(self).count,
            final(self).lane_width == old(self).lane_width,
            final(self).vel_x == old(self).vel_x,
            final(self).vel_y == old(self).vel_y,
            forall|i: int|
                0 <= i < old(self).count ==> final(self).pos_x@[i] == px@[i]
                    && final(self).pos_y@[i] == py@[i],
            forall|i: int|
                old(self).count <= i < old(self).pos_x.len() ==> final(self).pos_x@[i]
                    == old(self).pos_x@[i] && final(self).pos_y@[i] == old(self).pos_y@[i],
    {
        let n: usize = self.count;
        let mut i: usize = 0;
        while i < n
            invariant
                self.wf(),
                n == self.count,
                i <= n,
                px@.len() == n,
                py@.len() == n,
                forall|k: int| 0 <= k < n ==> fx_ok(#[trigger] px@[k] as int),
                forall|k: int| 0 <= k < n ==> fx_ok(#[trigger] py@[k] as int),
                self.count == old(self).count,
                self.lane_width == old(self).lane_width,
                self.vel_x == old(self).vel_x,
                self.vel_y == old(self).vel_y,
                self.pos_x.len() == old(self).pos_x.len(),
                self.pos_y.len() == old(self).pos_y.len(),
                forall|k: int|
                    0 <= k < i ==> self.pos_x@[k] == px@[k] && self.pos_y@[k] == py@[k],
                forall|k: int|
                    i <= k < self.pos_x.len() ==> self.pos_x@[k] == old(self).pos_x@[k]
                        && self.pos_y@[k] == old(self).pos_y@[k],
            decreases n - i,
        {
            self.pos_x.set(i, px[i]);
            self.pos_y.set(i, py[i]);
            i = i + 1;
        }
    }

    /// Lay the live particles out on a centered square grid (`spacing` units
    /// apart), at rest: the initial configuration of the simulation.
    pub fn grid_layout(count: usize, lane_width: usize, spacing: i64) -> (r: ParticleSet)
        requires
            1 <= lane_width,
            count + lane_width <= usize::MAX,
            count <= 1_000_000_000_000,
            fx_ok(spacing as int),
        ensures
            r.wf(),
            r.count == count,
            r.lane_width == lane_width,
            forall|i: int| 0 <= i < count ==> #[trigger] on_layout_grid(r, spacing as int, i),
            forall|i: int| 0 <= i < r.vel_x.len() ==> #[trigger] r.vel_x@[i] == 0,
            forall|i: int| 0 <= i < r.vel_y.len() ==> #[trigger] r.vel_y@[i] == 0,
    {
        let mut ps = ParticleSet::new(count, lane_width);
        if count == 0 {
            return ps;
        }
        let s128: u128 = crate::fx::isqrt_u128(count as u128);
        proof {
            assert(s128 as int <= 1_000_000) by (nonlinear_arith)
                requires
                    s128 as int * s128 as int <= count as int,
                    s128 as int >= 0,
                    count as int <= 1_000_000_000_000,
            ;
        }
        let s_us: usize = s128 as usize;
        let side: usize = if s_us * s_us == count {
            s_us
        } else {
            s_us + 1
        };
        proof {
            assert(side as int == grid_side_s(count as int));
            if s_us == 0 {
                assert(s_us as int * s_us as int == 0) by (nonlinear_arith)
                    requires
                        s_us as int == 0,
                ;
                assert((count as int) < (s128 as int + 1) * (s128 as int + 1));
                assert(s128 as int == 0);
                assert((s128 as int + 1) * (s128 as int + 1) == 1) by (nonlinear_arith)
                    requires
                        s128 as int == 0,
                ;
            }
            assert(side >= 1);
            assert(count as int <= (side as int) * (side as int)) by (nonlinear_arith)
                requires
                    side as int == grid_side_s(count as int),
                    s128 as int == isqrt_s(count as int),
                    s128 as int * s128 as int <= count as int,
                    (count as int) < (s128 as int + 1) * (s128 as int + 1),
                    side as int == s128 as int || side as int == s128 as int + 1,
                    side as int == s128 as int ==> s128 as int * s128 as int == count as int,
            ;
        }
        let mut i: usize = 0;
        while i < count
            invariant
                ps.wf(),
                ps.count == count,
                ps.lane_width == lane_width,
                count <= ps.pos_x.len(),
                i <= count,
                1 <= side,
                side <= 1_000_001,
                side as int == grid_side_s(count as int),
                count as int <= (side as int) * (side as int),
                fx_ok(spacing as int),
                forall|k: int| 0 <= k < i ==> #[trigger] on_layout_grid(ps, spacing as int, k),
                forall|k: int| 0 <= k < ps.vel_x.len() ==> #[trigger] ps.vel_x@[k] == 0,
                forall|k: int| 0 <= k < ps.vel_y.len() ==> #[trigger] ps.vel_y@[k] == 0,
            decreases count - i,
        {
            let ghost pre_iter = ps;
            let col: usize = i % side;
            let row: usize = i / side;
            proof {
                vstd::arithmetic::div_mod::lemma_multiply_divide_lt(
                    i as int,
                    side as int,
                    side as int,
                );
            }
            let x: i64 = layout_coord(col, side, spacing);
            let y: i64 = layout_coord(row, side, spacing);
            ps.pos_x.set(i, x);
            ps.pos_y.set(i, y);
            proof {
                crate::fx::lemma_all_fx_ok_update(pre_iter.pos_x@, i as int, x);
                crate::fx::lemma_all_fx_ok_update(pre_iter.pos_y@, i as int, y);
                assert forall|k: int| 0 <= k < i as int + 1 implies #[trigger] on_layout_grid(
                    ps,
                    spacing as int,
                    k,
                ) by {
                    if k < i as int {
                        assert(on_layout_grid(pre_iter, spacing as int, k));
                    }
                }
            }
            i = i + 1;
        }
        ps
    }

    /// Overwrite the velocities of the live particles; positions and inert
    /// tail slots are untouched.
    pub fn set_velocities(&mut self, vx: &Vec<i64>, vy: &Vec<i64>)
        requires
            old(self).wf(),
            vx@.len() == old(self).count,
            vy@.len() == old(self).count,
            forall|i: int| 0 <= i < old(self).count ==> fx_ok(#[trigger] vx@[i] as int),
            forall|i: int| 0 <= i < old(self).count ==> fx_ok(#[trigger] vy@[i] as int),
        ensures
            final(self).wf(),
            final(self).count == old(self).count,
            final(self).lane_width == old(self).lane_width,
            final(self).pos_x == old(self).pos_x,
            final(self).pos_y == old(self).pos_y,
            forall|i: int|
                0 <= i < old(self).count ==> final(self).vel_x@[i] == vx@[i]
                    && final(self).vel_y@[i] == vy@[i],
            forall|i: int|
                old(self).count <= i < old(self).vel_x.len() ==> final(self).vel_x@[i]
                    == old(self).vel_x@[i] && final(self).vel_y@[i] == old(self).vel_y@[i],
    {
        let n: usize = self.count;
        let mut i: usize = 0;
        while i < n
            invariant
                self.wf(),
                n == self.count,
                i <= n,
                vx@.len() == n,
                vy@.len() == n,
                forall|k: int| 0 <= k < n ==> fx_ok(#[trigger] vx@[k] as int),
                forall|k: int| 0 <= k < n ==> fx_ok(#[trigger] vy@[k] as int),
                self.count == old(self).count,
                self.lane_width == old(self).lane_width,
                self.pos_x == old(self).pos_x,
                self.pos_y == old(self).pos_y,
                self.vel_x.len() == old(self).vel_x.len(),
                self.vel_y.len() == old(self).vel_y.len(),
                forall|k: int|
                    0 <= k < i ==> self.vel_x@[k] == vx@[k] && self.vel_y@[k] == vy@[k],
                forall|k: int|
                    i <= k < self.vel_x.len() ==> self.vel_x@[k] == old(self).vel_x@[k]
                        && self.vel_y@[k] == old(self).vel_y@[k],
            decreases n - i,
        {
            self.vel_x.set(i, vx[i]);
            self.vel_y.set(i, vy[i]);
            i = i + 1;
        }
    }

    /// Advance every particle by one tick. Deterministic and total; the
    /// per-particle result is exactly [`axis_step`] on each axis (gravity
    /// acts on the vertical axis only), so every position ends inside the
    /// bounds, unconditionally.
    pub fn tick(&mut self, params: &SimParams)
        requires
            old(self).wf(),
            params.wf(),
        ensures
            final(self).wf(),
            tick_rel(*old(self), *final(self), *params),
            positions_bounded(*final(self), *params),
    {
        let n: usize = self.pos_x.len();
        let mut i: usize = 0;
        while i < n
            invariant
                self.wf(),
                params.wf(),
                n == self.pos_x.len(),
                i <= n,
                self.count == old(self).count,
                self.lane_width == old(self).lane_width,
                self.pos_x.len() == old(self).pos_x.len(),
                self.pos_y.len() == old(self).pos_y.len(),
                self.vel_x.len() == old(self).vel_x.len(),
                self.vel_y.len() == old(self).vel_y.len(),
                forall|k: int|
                    i <= k < n ==> self.pos_x@[k] == old(self).pos_x@[k] && self.pos_y@[k] == old(
                        self,
                    ).pos_y@[k] && self.vel_x@[k] == old(self).vel_x@[k] && self.vel_y@[k] == old(
                        self,
                    ).vel_y@[k],
                forall|k: int|
                    0 <= k < i ==> step_holds(*old(self), *self, *params, k),
            decreases n - i,
        {
            let ghost pre_iter = *self;
            let (px, vx) = step_axis(
                self.pos_x[i],
                self.vel_x[i],
                0,
                params.dt,
                params.bound_min_x,
                params.bound_max_x,
                params.bounce,
            );
            let (py, vy) = step_axis(
                self.pos_y[i],
                self.vel_y[i],
                params.gravity,
                params.dt,
                params.bound_min_y,
                params.bound_max_y,
                params.bounce,
            );
            self.pos_x.set(i, px);
            self.pos_y.set(i, py);
            self.vel_x.set(i, vx);
            self.vel_y.set(i, vy);
            proof {
                assert forall|k: int| 0 <= k < i as int + 1 implies step_holds(
                    *old(self),
                    *self,
                    *params,
                    k,
                ) by {
                    if k < i as int {
                        assert(step_holds(*old(self), pre_iter, *params, k));
                        assert(self.pos_x@[k] == pre_iter.pos_x@[k]);
                        assert(self.pos_y@[k] == pre_iter.pos_y@[k]);
                        assert(self.vel_x@[k] == pre_iter.vel_x@[k]);
                        assert(self.vel_y@[k] == pre_iter.vel_y@[k]);
                    }
                }
                assert forall|k: int| 0 <= k < self.pos_x@.len() implies fx_ok(
                    #[trigger] self.pos_x@[k] as int,
                ) by {
                    if k != i as int {
                        assert(fx_ok(pre_iter.pos_x@[k] as int));
                    }
                }
                assert forall|k: int| 0 <= k < self.pos_y@.len() implies fx_ok(
                    #[trigger] self.pos_y@[k] as int,
                ) by {
                    if k != i as int {
                        assert(fx_ok(pre_iter.pos_y@[k] as int));
                    }
                }
                assert forall|k: int| 0 <= k < self.vel_x@.len() implies fx_ok(
                    #[trigger] self.vel_x@[k] as int,
                ) by {
                    if k != i as int {
                        assert(fx_ok(pre_iter.vel_x@[k] as int));
                    }
                }
                assert forall|k: int| 0 <= k < self.vel_y@.len() implies fx_ok(
                    #[trigger] self.vel_y@[k] as int,
                ) by {
                    if k != i as int {
                        assert(fx_ok(pre_iter.vel_y@[k] as int));
                    }
                }
            }
            i = i + 1;
        }
        proof {
            assert forall|j: int| 0 <= j < self.pos_x@.len() implies #[trigger] in_box(
                *self,
                *params,
                j,
            ) by {
                assert(step_holds(*old(self), *self, *params, j));
            }
            assert(positions_bounded(*self, *params));
        }
    }
}

/// Slot `i` of `s` lies inside the box of `params` on both axes.
pub open spec fn in_box(s: ParticleSet, params: SimParams, i: int) -> bool {
    &&& params.bound_min_x <= s.pos_x@[i] <= params.bound_max_x
    &&& params.bound_min_y <= s.pos_y@[i] <= params.bound_max_y
}

/// Every live and inert slot of `s` lies inside the box of `params`.
pub open spec fn positions_bounded(s: ParticleSet, params: SimParams) -> bool {
    forall|i: int| 0 <= i < s.pos_x@.len() ==> #[trigger] in_box(s, params, i)
}

/// Particle `i` of `post` is particle `i` of `pre` advanced by one tick.
pub open spec fn step_holds(pre: ParticleSet, post: ParticleSet, params: SimParams, i: int) -> bool {
    &&& post.pos_x@[i] as int == axis_step(
        pre.pos_x@[i] as int,
        pre.vel_x@[i] as int,
        0,
        params.dt as int,
        params.bound_min_x as int,
        params.bound_max_x as int,
        params.bounce as int,
    ).0
    &&& post.vel_x@[i] as int == axis_step(
        pre.pos_x@[i] as int,
        pre.vel_x@[i] as int,
        0,
        params.dt as int,
        params.bound_min_x as int,
        params.bound_max_x as int,
        params.bounce as int,
    ).1
    &&& post.pos_y@[i] as int == axis_step(
        pre.pos_y@[i] as int,
        pre.vel_y@[i] as int,
        params.gravity as int,
        params.dt as int,
        params.bound_min_y as int,
        params.bound_max_y as int,
        params.bounce as int,
    ).0
    &&& post.vel_y@[i] as int == axis_step(
        pre.pos_y@[i] as int,
        pre.vel_y@[i] as int,
        params.gravity as int,
        params.dt as int,
        params.bound_min_y as int,
        params.bound_max_y as int,
        params.bounce as int,
    ).1
}

/// The full tick relation: counts and layout preserved, every slot advanced
/// by [`axis_step`].
pub open spec fn tick_rel(pre: ParticleSet, post: ParticleSet, params: SimParams) -> bool {
    &&& post.count == pre.count
    &&& post.lane_width == pre.lane_width
    &&& post.pos_x.len() == pre.pos_x.len()
    &&& post.pos_y.len() == pre.pos_y.len()
    &&& post.vel_x.len() == pre.vel_x.len()
    &&& post.vel_y.len() == pre.vel_y.len()
    &&& forall|i: int| 0 <= i < pre.pos_x.len() ==> #[trigger] step_holds(pre, post, params, i)
}

/// One axis of one particle, executably.
fn step_axis(p: i64, v: i64, g: i64, dt: i64, lo: i64, hi: i64, bounce: i64) -> (r: (i64, i64))
    requires
        fx_ok(p as int),
        fx_ok(v as int),
        fx_ok(g as int),
        fx_ok(dt as int),
        fx_ok(lo as int),
        fx_ok(hi as int),
        fx_ok(bounce as int),
        lo <= hi,
    ensures
        r.0 as int == axis_step(
            p as int,
            v as int,
            g as int,
            dt as int,
            lo as int,
            hi as int,
            bounce as int,
        ).0,
        r.1 as int == axis_step(
            p as int,
            v as int,
            g as int,
            dt as int,
            lo as int,
            hi as int,
            bounce as int,
        ).1,
        fx_ok(r.0 as int),
        fx_ok(r.1 as int),
{
    let v1: i64 = fx_add(v, fx_mul(g, dt));
    let p1: i64 = fx_add(p, fx_mul(v1, dt));
    let p2: i64 = fx_clamp(p1, lo, hi);
    let v2: i64 = if p1 > hi {
        fx_mul(v1, bounce)
    } else {
        v1
    };
    let v3: i64 = if p1 < lo {
        fx_mul(v2, bounce)
    } else {
        v2
    };
    (p2, v3)
}

/// A vector of `n` zeroes.
pub(crate) fn zero_vec(n: usize) -> (v: Vec<i64>)
    ensures
        v@.len() == n,
        forall|i: int| 0 <= i < n ==> v@[i] == 0,
{
    let mut v: Vec<i64> = Vec::new();
    let mut i: usize = 0;
    while i < n
        invariant
            i <= n,
            v@.len() == i,
            forall|k: int| 0 <= k < i ==> v@[k] == 0,
        decreases n - i,
    {
        v.push(0);
        i = i + 1;
    }
    v
}

/// Pure linear motion: with zero gravity and no boundary crossing, one tick
/// moves a particle by exactly the fixed-point product of its velocity and
/// the timestep, and leaves the velocity unchanged.
pub proof fn lemma_pure_linear_motion(p: int, v: int, dt: int, lo: int, hi: int, bounce: int)
    requires
        fx_ok(p),
        fx_ok(v),
        fx_ok(dt),
        fx_ok(lo),
        fx_ok(hi),
        -(SCALE as int) < bounce < 0,
        lo <= p + fx_mul_s(v, dt) <= hi,
    ensures
        axis_step(p, v, 0, dt, lo, hi, bounce).0 == p + fx_mul_s(v, dt),
        axis_step(p, v, 0, dt, lo, hi, bounce).1 == v,
{
    assert(fx_mul_s(0, dt) == 0);
    assert(pre_bounce_vel(v, 0, dt) == v);
}

/// Boundary reflection loses energy: when the integrated position crosses a
/// bound, the new speed on that axis is exactly the old (post-gravity) speed
/// scaled by the bounce magnitude, which is below one unit — so the speed
/// never grows.
pub proof fn lemma_bounce_damps(p: int, v: int, g: int, dt: int, lo: int, hi: int, bounce: int)
    requires
        fx_ok(p),
        fx_ok(v),
        fx_ok(g),
        fx_ok(dt),
        fx_ok(lo),
        fx_ok(hi),
        lo <= hi,
        -(SCALE as int) < bounce < 0,
        integrated_pos(p, v, g, dt) > hi || integrated_pos(p, v, g, dt) < lo,
    ensures
        iabs(axis_step(p, v, g, dt, lo, hi, bounce).1) == fx_mul_s(
            iabs(pre_bounce_vel(v, g, dt)),
            -bounce,
        ),
        iabs(axis_step(p, v, g, dt, lo, hi, bounce).1) <= iabs(pre_bounce_vel(v, g, dt)),
        0 < -bounce < SCALE,
{
    let v1 = pre_bounce_vel(v, g, dt);
    let vr = axis_step(p, v, g, dt, lo, hi, bounce).1;
    assert(vr == fx_mul_s(v1, bounce));
    lemma_fx_mul_neg(v1, bounce);
    lemma_fx_mul_neg(iabs(v1), bounce);
    if v1 >= 0 {
        lemma_fx_mul_nonneg(v1, -bounce);
        assert(vr == -fx_mul_s(v1, -bounce));
    } else {
        lemma_fx_mul_neg(-v1, bounce);
        assert(v1 == -iabs(v1));
        assert(fx_mul_s(v1, bounce) == -fx_mul_s(iabs(v1), bounce));
        lemma_fx_mul_nonneg(iabs(v1), -bounce);
    }
    lemma_fx_mul_shrinks(iabs(v1), -bounce);
}

/// Lane-width invariance: the tick relation determines the new state of each
/// live particle from that particle's old state alone, so two particle sets
/// that agree on their live particles agree after one tick, whatever their
/// lane widths.
pub proof fn lemma_lane_width_invariance(
    a0: ParticleSet,
    a1: ParticleSet,
    b0: ParticleSet,
    b1: ParticleSet,
    params: SimParams,
)
    requires
        a0.wf(),
        b0.wf(),
        a0.count == b0.count,
        a0.xs() == b0.xs(),
        a0.ys() == b0.ys(),
        a0.vxs() == b0.vxs(),
        a0.vys() == b0.vys(),
        tick_rel(a0, a1, params),
        tick_rel(b0, b1, params),
    ensures
        a1.count == b1.count,
        a1.xs() == b1.xs(),
        a1.ys() == b1.ys(),
        a1.vxs() == b1.vxs(),
        a1.vys() == b1.vys(),
{
    assert forall|i: int| 0 <= i < a0.count implies a1.xs()[i] == b1.xs()[i] && a1.ys()[i]
        == b1.ys()[i] && a1.vxs()[i] == b1.vxs()[i] && a1.vys()[i] == b1.vys()[i] by {
        assert(step_holds(a0, a1, params, i));
        assert(step_holds(b0, b1, params, i));
        assert(a0.xs()[i] == a0.pos_x@[i] as int);
        assert(b0.xs()[i] == b0.pos_x@[i] as int);
        assert(a0.ys()[i] == a0.pos_y@[i] as int);
        assert(b0.ys()[i] == b0.pos_y@[i] as int);
        assert(a0.vxs()[i] == a0.vel_x@[i] as int);
        assert(b0.vxs()[i] == b0.vel_x@[i] as int);
        assert(a0.vys()[i] == a0.vel_y@[i] as int);
        assert(b0.vys()[i] == b0.vel_y@[i] as int);
        assert(a1.xs()[i] == a1.pos_x@[i] as int);
        assert(b1.xs()[i] == b1.pos_x@[i] as int);
        assert(a1.ys()[i] == a1.pos_y@[i] as int);
        assert(b1.ys()[i] == b1.pos_y@[i] as int);
        assert(a1.vxs()[i] == a1.vel_x@[i] as int);
        assert(b1.vxs()[i] == b1.vel_x@[i] as int);
        assert(a1.vys()[i] == a1.vel_y@[i] as int);
        assert(b1.vys()[i] == b1.vel_y@[i] as int);
    }
    assert(a1.xs() =~= b1.xs());
    assert(a1.ys() =~= b1.ys());
    assert(a1.vxs() =~= b1.vxs());
    assert(a1.vys() =~= b1.vys());
}

/// Lane-width invariance over a whole run: two tick-by-tick traces that
/// start from the same live particles agree at every tick, however their
/// lane widths differ — the results are equal exactly, not merely within a
/// tolerance.
pub proof fn lemma_lane_width_invariance_ticks(a: Seq<ParticleSet>, b: Seq<ParticleSet>, params: SimParams)
    requires
        a.len() == b.len(),
        a.len() >= 1,
        forall|t: int| 0 <= t < a.len() ==> (#[trigger] a[t]).wf(),
        forall|t: int| 0 <= t < b.len() ==> (#[trigger] b[t]).wf(),
        forall|t: int| #![trigger a[t]] 0 <= t < a.len() - 1 ==> tick_rel(a[t], a[t + 1], params),
        forall|t: int| #![trigger b[t]] 0 <= t < b.len() - 1 ==> tick_rel(b[t], b[t + 1], params),
        a[0].count == b[0].count,
        a[0].xs() == b[0].xs(),
        a[0].ys() == b[0].ys(),
        a[0].vxs() == b[0].vxs(),
        a[0].vys() == b[0].vys(),
    ensures
        forall|t: int|
            0 <= t < a.len() ==> (#[trigger] a[t]).count == b[t].count && a[t].xs() == b[t].xs()
                && a[t].ys() == b[t].ys() && a[t].vxs() == b[t].vxs() && a[t].vys() == b[t].vys(),
    decreases a.len(),
{
    if a.len() > 1 {
        assert(tick_rel(a[0], a[1], params));
        assert(tick_rel(b[0], b[1], params));
        lemma_lane_width_invariance(a[0], a[1], b[0], b[1], params);
        let a2 = a.drop_first();
        let b2 = b.drop_first();
        assert forall|t: int| 0 <= t < a2.len() implies (#[trigger] a2[t]).wf() by {
            assert(a2[t] == a[t + 1]);
            assert(a[t + 1].wf());
        }
        assert forall|t: int| 0 <= t < b2.len() implies (#[trigger] b2[t]).wf() by {
            assert(b2[t] == b[t + 1]);
            assert(b[t + 1].wf());
        }
        assert forall|t: int| #![trigger a2[t]] 0 <= t < a2.len() - 1 implies tick_rel(
            a2[t],
            a2[t + 1],
            params,
        ) by {
            assert(a2[t] == a[t + 1] && a2[t + 1] == a[t + 2]);
            assert(tick_rel(a[t + 1], a[t + 1 + 1], params));
        }
        assert forall|t: int| #![trigger b2[t]] 0 <= t < b2.len() - 1 implies tick_rel(
            b2[t],
            b2[t + 1],
            params,
        ) by {
            assert(b2[t] == b[t + 1] && b2[t + 1] == b[t + 2]);
            assert(tick_rel(b[t + 1], b[t + 1 + 1], params));
        }
        assert(a2[0] == a[1] && b2[0] == b[1]);
        lemma_lane_width_invariance_ticks(a2, b2, params);
        assert forall|t: int|
            0 <= t < a.len() implies (#[trigger] a[t]).count == b[t].count && a[t].xs() == b[t].xs()
            && a[t].ys() == b[t].ys() && a[t].vxs() == b[t].vxs() && a[t].vys() == b[t].vys() by {
            if t > 0 {
                assert(a2[t - 1] == a[t] && b2[t - 1] == b[t]);
                assert(a2[t - 1].count == b2[t - 1].count && a2[t - 1].xs() == b2[t - 1].xs()
                    && a2[t - 1].ys() == b2[t - 1].ys() && a2[t - 1].vxs() == b2[t - 1].vxs()
                    && a2[t - 1].vys() == b2[t - 1].vys());
            }
        }
    }
}

/// Rounding `count` up to a multiple of `w` neither undershoots `count` nor
/// overshoots `count + w - 1`.
pub proof fn lemma_padded_len_bounds(count: int, w: int)
    requires
        count >= 0,
        w >= 1,
    ensures
        count <= padded_len(count, w) <= count + w - 1,
{
    let q = (count + w - 1) / w;
    assert(q * w <= count + w - 1 && count <= q * w) by (nonlinear_arith)
        requires
            count >= 0,
            w >= 1,
            q == (count + w - 1) / w,
    ;
}

} // verus!
